//! Building each service's history request from a validated URL.

use vstd::prelude::*;

use crate::codec::copy_range;
use crate::gacha::Error;
use crate::text::{contains_bytes, find_bytes, first_occurrence, utf8_of};

verus! {

/// The decoded name/value pairs of an `application/x-www-form-urlencoded` string.
pub uninterp spec fn form_pairs(q: Seq<u8>) -> Seq<(Seq<char>, Seq<char>)>;

/// The text of the URL that `base` with `pairs` appended to its query gives,
/// or `None` where `base` is not an absolute URL.
pub uninterp spec fn url_with_params(base: Seq<char>, pairs: Seq<(Seq<char>, Seq<char>)>) -> Option<Seq<char>>;

pub open spec fn pair_views(v: Seq<(String, String)>) -> Seq<(Seq<char>, Seq<char>)> {
    v.map_values(|p: (String, String)| (p.0@, p.1@))
}

/// Relies on `form_urlencoded::parse`: the decoded pairs in input order; an
/// empty input has none.
#[verifier::external_body]
fn parse_query(q: &[u8]) -> (r: Vec<(String, String)>)
    ensures
        pair_views(r@) == form_pairs(q@),
        q@.len() == 0 ==> r@.len() == 0,
{
    form_urlencoded::parse(q).into_owned().collect()
}

/// Relies on `url::Url::parse_with_params`: parses `base` and appends the
/// pairs to its query, failing when `base` is not an absolute URL.
#[verifier::external_body]
fn build_url(base: &str, pairs: &Vec<(String, String)>) -> (r: Option<String>)
    ensures
        match r {
            Some(s) => url_with_params(base@, pair_views(pairs@)) == Some(s@),
            None => url_with_params(base@, pair_views(pairs@)) is None,
        },
{
    url::Url::parse_with_params(base, pairs.iter()).ok().map(String::from)
}

pub const GACHA_TYPE_PARAM: &'static str = "gacha_type";
pub const PAGE_PARAM: &'static str = "page";
pub const SIZE_PARAM: &'static str = "size";
pub const BEGIN_ID_PARAM: &'static str = "begin_id";
pub const END_ID_PARAM: &'static str = "end_id";

/// The page requested: always the first, resuming after `end_id`.
pub const PAGE_VALUE: &'static str = "1";

/// Records per page.
pub const SIZE_VALUE: &'static str = "20";

/// The value of the last pair named `key`: a later pair overrides an earlier one.
pub open spec fn query_value(pairs: Seq<(Seq<char>, Seq<char>)>, key: Seq<char>) -> Option<Seq<char>>
    decreases pairs.len(),
{
    if pairs.len() == 0 {
        None
    } else if pairs.last().0 == key {
        Some(pairs.last().1)
    } else {
        query_value(pairs.drop_last(), key)
    }
}

/// Pair `i` is the last one with its name.
pub open spec fn last_of_name(pairs: Seq<(Seq<char>, Seq<char>)>, i: int) -> bool {
    forall|j: int| i < j < pairs.len() ==> #[trigger] pairs[j].0 != pairs[i].0
}

/// Pair `i` is carried into the request: the last of its name, not a paging one.
pub open spec fn carried(pairs: Seq<(Seq<char>, Seq<char>)>) -> spec_fn(int) -> Option<(Seq<char>, Seq<char>)> {
    |i: int| if 0 <= i < pairs.len() && last_of_name(pairs, i) && not_paging(pairs[i]) {
        Some(pairs[i])
    } else {
        None
    }
}

/// The URL's own pairs that a request keeps, in their order: one per name
/// (the last), the paging ones left out.
pub open spec fn kept_pairs(pairs: Seq<(Seq<char>, Seq<char>)>) -> Seq<(Seq<char>, Seq<char>)> {
    Seq::new(pairs.len(), |i: int| i).filter_map(carried(pairs))
}

/// The parameters that the request sets itself.
pub open spec fn is_paging_key(k: Seq<char>) -> bool {
    k == GACHA_TYPE_PARAM@ || k == PAGE_PARAM@ || k == SIZE_PARAM@ || k == BEGIN_ID_PARAM@ || k
        == END_ID_PARAM@
}

pub open spec fn not_paging(p: (Seq<char>, Seq<char>)) -> bool {
    !is_paging_key(p.0)
}

/// The query of a page request: the URL's own parameters but the paging
/// ones (one per name, the last), then page 1 of 20 records of category `gacha_type` (the URL's own
/// when absent) after `end_id` (the URL's own, if any, when absent).
/// `None` when the URL names no category.
pub open spec fn page_params(
    pairs: Seq<(Seq<char>, Seq<char>)>,
    gacha_type: Option<Seq<char>>,
    end_id: Option<Seq<char>>,
) -> Option<Seq<(Seq<char>, Seq<char>)>> {
    match query_value(pairs, GACHA_TYPE_PARAM@) {
        None => None,
        Some(own_type) => {
            let t = match gacha_type {
                Some(g) => g,
                None => own_type,
            };
            let e = match end_id {
                Some(x) => Some(x),
                None => query_value(pairs, END_ID_PARAM@),
            };
            Some(
                kept_pairs(pairs) + seq![
                    (PAGE_PARAM@, PAGE_VALUE@),
                    (SIZE_PARAM@, SIZE_VALUE@),
                    (GACHA_TYPE_PARAM@, t),
                ] + match e {
                    Some(x) => seq![(END_ID_PARAM@, x)],
                    None => Seq::empty(),
                },
            )
        },
    }
}

/// Where the query of `url` starts: just after the first `endpoint`.
pub open spec fn query_start(url: Seq<char>, endpoint: Seq<char>) -> Option<int> {
    let b = utf8_of(url);
    let n = utf8_of(endpoint);
    if contains_bytes(b, n) {
        Some((choose|i: int| first_occurrence(b, n, i)) + n.len())
    } else {
        None
    }
}

/// The page request for `url`, or `None` where the URL is not usable.
pub open spec fn page_request(
    endpoint: Seq<char>,
    url: Seq<char>,
    gacha_type: Option<Seq<char>>,
    end_id: Option<Seq<char>>,
) -> Option<Seq<char>> {
    match query_start(url, endpoint) {
        None => None,
        Some(s) => {
            let b = utf8_of(url);
            if !vstd::utf8::is_char_boundary(b, s) {
                None
            } else {
                match page_params(form_pairs(b.subrange(s, b.len() as int)), gacha_type, end_id) {
                    None => None,
                    Some(params) => url_with_params(vstd::utf8::decode_utf8(b.subrange(0, s)), params),
                }
            }
        },
    }
}

proof fn lemma_first_occurrence_unique(b: Seq<u8>, n: Seq<u8>, i: int, j: int)
    requires
        first_occurrence(b, n, i),
        first_occurrence(b, n, j),
    ensures
        i == j,
{
}

/// Finds where the query of `url` starts, just after the first `endpoint`.
fn find_query(url: &str, endpoint: &str) -> (r: Option<usize>)
    ensures
        match r {
            Some(s) => query_start(url@, endpoint@) == Some(s as int) && s <= utf8_of(url@).len(),
            None => query_start(url@, endpoint@) is None,
        },
{
    let b = url.as_bytes();
    let n = endpoint.as_bytes();
    match find_bytes(b, n) {
        None => None,
        Some(i) => {
            proof {
                let c = choose|k: int| first_occurrence(b@, n@, k);
                lemma_first_occurrence_unique(b@, n@, i as int, c);
            }
            let bl = b.len();
            assert(i + n@.len() <= bl);
            Some(i + n.len())
        },
    }
}

fn opt_string(o: Option<&str>) -> (r: Option<String>)
    ensures
        match o {
            Some(s) => r matches Some(t) && t@ == s@,
            None => r is None,
        },
{
    match o {
        Some(s) => Some(s.to_owned()),
        None => None,
    }
}

/// The value of the last pair named `key`.
fn find_value(pairs: &Vec<(String, String)>, key: &str) -> (r: Option<String>)
    ensures
        match r {
            Some(v) => query_value(pair_views(pairs@), key@) == Some(v@),
            None => query_value(pair_views(pairs@), key@) is None,
        },
{
    let k = key.to_owned();
    let ghost all = pair_views(pairs@);
    let mut i: usize = pairs.len();
    assert(all.take(i as int) =~= all);
    while i > 0
        invariant
            i <= pairs@.len(),
            all == pair_views(pairs@),
            k@ == key@,
            query_value(all, key@) == query_value(all.take(i as int), key@),
        decreases i,
    {
        assert(all.take(i as int).drop_last() =~= all.take(i - 1));
        assert(all.take(i as int).last() == (pairs@[i - 1].0@, pairs@[i - 1].1@));
        if pairs[i - 1].0 == k {
            return Some(pairs[i - 1].1.clone());
        }
        i = i - 1;
    }
    None
}

/// Whether pair `i` is the last one with its name.
fn is_last_of_name(pairs: &Vec<(String, String)>, i: usize) -> (r: bool)
    requires
        i < pairs@.len(),
    ensures
        r == last_of_name(pair_views(pairs@), i as int),
{
    let ghost all = pair_views(pairs@);
    let n = pairs.len();
    assert(i < n);
    let mut j: usize = i + 1;
    while j < pairs.len()
        invariant
            i < j <= pairs@.len(),
            all == pair_views(pairs@),
            forall|m: int| i < m < j ==> #[trigger] all[m].0 != all[i as int].0,
        decreases pairs.len() - j,
    {
        if pairs[j].0 == pairs[i].0 {
            assert(all[j as int].0 == all[i as int].0);
            return false;
        }
        j = j + 1;
    }
    true
}

fn is_paging(k: &String) -> (r: bool)
    ensures
        r == is_paging_key(k@),
{
    let names = [GACHA_TYPE_PARAM, PAGE_PARAM, SIZE_PARAM, BEGIN_ID_PARAM, END_ID_PARAM];
    let mut i: usize = 0;
    while i < 5
        invariant
            i <= 5,
            names@ == seq![GACHA_TYPE_PARAM, PAGE_PARAM, SIZE_PARAM, BEGIN_ID_PARAM, END_ID_PARAM],
            forall|j: int| 0 <= j < i ==> k@ != (#[trigger] names@[j])@,
        decreases 5 - i,
    {
        if *k == names[i].to_owned() {
            return true;
        }
        i = i + 1;
    }
    false
}

fn pair(k: &str, v: String) -> (r: (String, String))
    ensures
        r.0@ == k@,
        r.1@ == v@,
{
    (k.to_owned(), v)
}

/// Builds the query of a page request from the URL's own pairs.
pub fn build_page_params(
    pairs: Vec<(String, String)>,
    gacha_type: Option<&str>,
    end_id: Option<&str>,
) -> (r: Option<Vec<(String, String)>>)
    ensures
        match r {
            Some(v) => page_params(pair_views(pairs@), opt_view(gacha_type), opt_view(end_id)) == Some(pair_views(v@)),
            None => page_params(pair_views(pairs@), opt_view(gacha_type), opt_view(end_id)) is None,
        },
{
    let ghost all = pair_views(pairs@);
    let own_type = match find_value(&pairs, GACHA_TYPE_PARAM) {
        Some(t) => t,
        None => return None,
    };
    let own_end = find_value(&pairs, END_ID_PARAM);
    let ghost idx = Seq::new(all.len(), |i: int| i);
    let ghost f = carried(all);
    let mut out: Vec<(String, String)> = Vec::new();
    let mut i: usize = 0;
    while i < pairs.len()
        invariant
            i <= pairs@.len(),
            all == pair_views(pairs@),
            idx == Seq::new(all.len(), |i: int| i),
            f == carried(all),
            pair_views(out@) == idx.take(i as int).filter_map(f),
        decreases pairs.len() - i,
    {
        proof {
            idx.lemma_filter_map_take_succ(f, i as int);
            assert(idx[i as int] == i);
        }
        if !is_paging(&pairs[i].0) && is_last_of_name(&pairs, i) {
            let ghost before = out@;
            out.push((pairs[i].0.clone(), pairs[i].1.clone()));
            assert(pair_views(out@) =~= pair_views(before).push(all[i as int]));
        }
        assert(pair_views(out@) =~= idx.take(i + 1).filter_map(f));
        i = i + 1;
    }
    assert(idx.take(i as int) =~= idx);
    let ghost kept = pair_views(out@);
    let t = match gacha_type {
        Some(g) => g.to_owned(),
        None => own_type,
    };
    let e = match end_id {
        Some(x) => Some(x.to_owned()),
        None => own_end,
    };
    out.push(pair(PAGE_PARAM, PAGE_VALUE.to_owned()));
    out.push(pair(SIZE_PARAM, SIZE_VALUE.to_owned()));
    out.push(pair(GACHA_TYPE_PARAM, t));
    let ghost with_type = pair_views(out@);
    assert(with_type =~= kept + seq![(PAGE_PARAM@, PAGE_VALUE@), (SIZE_PARAM@, SIZE_VALUE@), (GACHA_TYPE_PARAM@, with_type[kept.len() + 2int].1)]);
    match e {
        Some(x) => {
            out.push(pair(END_ID_PARAM, x));
            assert(pair_views(out@) =~= with_type + seq![(END_ID_PARAM@, pair_views(out@)[with_type.len() as int].1)]);
        },
        None => {
            assert(with_type =~= with_type + Seq::<(Seq<char>, Seq<char>)>::empty());
        },
    }
    Some(out)
}

pub open spec fn opt_view(o: Option<&str>) -> Option<Seq<char>> {
    match o {
        Some(s) => Some(s@),
        None => None,
    }
}

/// The URL of one page of records of the cursor-paginated service: the
/// part of `gacha_url` up to `endpoint`, with its query rebuilt for page 1 of
/// 20 records of `gacha_type` after `end_id`. The URL must contain
/// `endpoint` and name a category.
pub fn build_page_url(
    endpoint: &str,
    gacha_url: &str,
    gacha_type: Option<&str>,
    end_id: Option<&str>,
) -> (r: Result<String, Error>)
    ensures
        match page_request(endpoint@, gacha_url@, opt_view(gacha_type), opt_view(end_id)) {
            Some(u) => r matches Ok(s) && s@ == u,
            None => r == Err::<String, Error>(Error::IllegalGachaUrl),
        },
{
    let start = match find_query(gacha_url, endpoint) {
        Some(s) => s,
        None => return Err(Error::IllegalGachaUrl),
    };
    if !gacha_url.is_char_boundary(start) {
        return Err(Error::IllegalGachaUrl);
    }
    let (base, query) = gacha_url.split_at(start);
    proof {
        vstd::utf8::encode_utf8_decode_utf8(base@);
    }
    let pairs = parse_query(query.as_bytes());
    let params = match build_page_params(pairs, gacha_type, end_id) {
        Some(p) => p,
        None => return Err(Error::IllegalGachaUrl),
    };
    match build_url(base, &params) {
        Some(u) => Ok(u),
        None => Err(Error::IllegalGachaUrl),
    }
}

/// Where the full-history service answers record queries.
pub const KURO_RECORD_URL: &'static str = "https://gmserver-api.aki-game2.net/gacha/record/query";

/// Language of the names in the records asked for.
pub const KURO_LANGUAGE: &'static str = "en";

pub const RESOURCES_ID_PARAM: &'static str = "resources_id";
pub const PLAYER_ID_PARAM: &'static str = "player_id";
pub const RECORD_ID_PARAM: &'static str = "record_id";
pub const SERVER_ID_PARAM: &'static str = "svr_id";

/// The body of a record query to the full-history service.
#[derive(Debug)]
pub struct KuroRecordQuery {
    pub card_pool_id: String,
    pub card_pool_type: String,
    pub language_code: String,
    pub player_id: String,
    pub record_id: String,
    pub server_id: String,
}

pub struct KuroRecordQueryView {
    pub card_pool_id: Seq<char>,
    pub card_pool_type: Seq<char>,
    pub language_code: Seq<char>,
    pub player_id: Seq<char>,
    pub record_id: Seq<char>,
    pub server_id: Seq<char>,
}

impl View for KuroRecordQuery {
    type V = KuroRecordQueryView;

    open spec fn view(&self) -> KuroRecordQueryView {
        KuroRecordQueryView {
            card_pool_id: self.card_pool_id@,
            card_pool_type: self.card_pool_type@,
            language_code: self.language_code@,
            player_id: self.player_id@,
            record_id: self.record_id@,
            server_id: self.server_id@,
        }
    }
}

/// The record query for `url`: the pool, player, record and server named
/// by the URL's query after `endpoint`, and category `gacha_type` (the URL's
/// own when absent). `None` where the URL lacks one of them.
pub open spec fn kuro_query_spec(endpoint: Seq<char>, url: Seq<char>, gacha_type: Option<Seq<char>>) -> Option<KuroRecordQueryView> {
    match query_start(url, endpoint) {
        None => None,
        Some(s) => {
            let b = utf8_of(url);
            kuro_query_of(form_pairs(b.subrange(s, b.len() as int)), gacha_type)
        },
    }
}

/// Builds the record query of the full-history service from a URL found in
/// the game's log.
pub fn build_kuro_query(endpoint: &str, gacha_url: &str, gacha_type: Option<&str>) -> (r: Result<KuroRecordQuery, Error>)
    ensures
        match kuro_query_spec(endpoint@, gacha_url@, opt_view(gacha_type)) {
            Some(q) => r matches Ok(k) && k@ == q,
            None => r == Err::<KuroRecordQuery, Error>(Error::IllegalGachaUrl),
        },
{
    let start = match find_query(gacha_url, endpoint) {
        Some(s) => s,
        None => return Err(Error::IllegalGachaUrl),
    };
    let b = gacha_url.as_bytes();
    let query = copy_range(b, start, b.len());
    let pairs = parse_query(query.as_slice());
    kuro_query_from_pairs(&pairs, gacha_type)
}

/// The record query that the pairs of a URL's query give.
pub open spec fn kuro_query_of(pairs: Seq<(Seq<char>, Seq<char>)>, gacha_type: Option<Seq<char>>) -> Option<KuroRecordQueryView> {
    match (
        query_value(pairs, RESOURCES_ID_PARAM@),
        query_value(pairs, PLAYER_ID_PARAM@),
        query_value(pairs, RECORD_ID_PARAM@),
        query_value(pairs, SERVER_ID_PARAM@),
        query_value(pairs, GACHA_TYPE_PARAM@),
    ) {
        (Some(pool), Some(player), Some(record), Some(server), Some(own_type)) => Some(
            KuroRecordQueryView {
                card_pool_id: pool,
                card_pool_type: match gacha_type {
                    Some(g) => g,
                    None => own_type,
                },
                language_code: KURO_LANGUAGE@,
                player_id: player,
                record_id: record,
                server_id: server,
            },
        ),
        _ => None,
    }
}

/// Reads the record query from the decoded pairs of a URL's query.
pub fn kuro_query_from_pairs(pairs: &Vec<(String, String)>, gacha_type: Option<&str>) -> (r: Result<KuroRecordQuery, Error>)
    ensures
        match kuro_query_of(pair_views(pairs@), opt_view(gacha_type)) {
            Some(q) => r matches Ok(k) && k@ == q,
            None => r == Err::<KuroRecordQuery, Error>(Error::IllegalGachaUrl),
        },
{
    let pool = find_value(pairs, RESOURCES_ID_PARAM);
    let player = find_value(pairs, PLAYER_ID_PARAM);
    let record = find_value(pairs, RECORD_ID_PARAM);
    let server = find_value(pairs, SERVER_ID_PARAM);
    let own_type = find_value(pairs, GACHA_TYPE_PARAM);
    match (pool, player, record, server, own_type) {
        (Some(card_pool_id), Some(player_id), Some(record_id), Some(server_id), Some(t)) => {
            let card_pool_type = match gacha_type {
                Some(g) => g.to_owned(),
                None => t,
            };
            Ok(
                KuroRecordQuery {
                    card_pool_id,
                    card_pool_type,
                    language_code: KURO_LANGUAGE.to_owned(),
                    player_id,
                    record_id,
                    server_id,
                },
            )
        },
        _ => Err(Error::IllegalGachaUrl),
    }
}

} // verus!
