//! Choosing, among candidate URLs, one that belongs to a given account, with a
//! memo of URLs already matched to accounts.

use vstd::prelude::*;

use crate::gacha::{fresh_at, is_fresh, url_views, AccountFacet, Error, GachaUrl, GachaUrlView};
use crate::text::reversed;

verus! {

/// What a memo key stands for: the service, the account id, the cache address.
pub type UrlKeyView = (AccountFacet, Seq<char>, Option<u32>);

/// Key of the validated-URL memo.
#[derive(Debug)]
pub struct UrlCacheKey {
    pub facet: AccountFacet,
    pub uid: String,
    pub addr: Option<u32>,
}

impl View for UrlCacheKey {
    type V = UrlKeyView;

    open spec fn view(&self) -> UrlKeyView {
        (self.facet, self.uid@, self.addr)
    }
}

impl UrlCacheKey {
    fn same(&self, other: &UrlCacheKey) -> (r: bool)
        ensures
            r == (self@ == other@),
    {
        let addr_same = match (self.addr, other.addr) {
            (Some(a), Some(b)) => a == b,
            (None, None) => true,
            _ => false,
        };
        self.facet == other.facet && self.uid == other.uid && addr_same
    }
}

/// The value that `k` maps to in a list of pairs; a later pair wins.
pub open spec fn lookup(s: Seq<(UrlKeyView, GachaUrlView)>, k: UrlKeyView) -> Option<GachaUrlView>
    decreases s.len(),
{
    if s.len() == 0 {
        None
    } else if s.last().0 == k {
        Some(s.last().1)
    } else {
        lookup(s.drop_last(), k)
    }
}

pub open spec fn pair_view(e: (UrlCacheKey, GachaUrl)) -> (UrlKeyView, GachaUrlView) {
    (e.0@, e.1@)
}

/// The memo of validated URLs: which URL was last matched to each key.
/// Entries expire lazily, when a lookup finds them stale.
pub struct UrlCache {
    entries: Vec<(UrlCacheKey, GachaUrl)>,
}

impl UrlCache {
    pub closed spec fn pairs(&self) -> Seq<(UrlKeyView, GachaUrlView)> {
        self.entries@.map_values(|e: (UrlCacheKey, GachaUrl)| pair_view(e))
    }
}

impl View for UrlCache {
    type V = Map<UrlKeyView, GachaUrlView>;

    open spec fn view(&self) -> Map<UrlKeyView, GachaUrlView> {
        Map::new(|k: UrlKeyView| lookup(self.pairs(), k) is Some, |k: UrlKeyView| lookup(self.pairs(), k)->Some_0)
    }
}

/// Keeps the pairs whose key is not `k`.
pub open spec fn key_differs(k: UrlKeyView) -> spec_fn((UrlKeyView, GachaUrlView)) -> bool {
    |e: (UrlKeyView, GachaUrlView)| e.0 != k
}

proof fn lemma_lookup_push(s: Seq<(UrlKeyView, GachaUrlView)>, e: (UrlKeyView, GachaUrlView), q: UrlKeyView)
    ensures
        lookup(s.push(e), q) == if e.0 == q {
            Some(e.1)
        } else {
            lookup(s, q)
        },
{
    assert(s.push(e).drop_last() =~= s);
}

proof fn lemma_lookup_without(s: Seq<(UrlKeyView, GachaUrlView)>, k: UrlKeyView, q: UrlKeyView)
    ensures
        lookup(s.filter(key_differs(k)), q) == if q == k {
            None
        } else {
            lookup(s, q)
        },
    decreases s.len(),
{
    let pred = key_differs(k);
    if s.len() > 0 {
        let init = s.drop_last();
        let l = s.last();
        lemma_lookup_without(init, k, q);
        init.lemma_filter_push(l, pred);
        assert(init.push(l) =~= s);
        lemma_lookup_push(init, l, q);
        if pred(l) {
            lemma_lookup_push(init.filter(pred), l, q);
        }
    }
}

impl UrlCache {
    /// An empty memo.
    pub fn new() -> (r: UrlCache)
        ensures
            r@ == Map::<UrlKeyView, GachaUrlView>::empty(),
    {
        let r = UrlCache { entries: Vec::new() };
        assert(r@ =~= Map::<UrlKeyView, GachaUrlView>::empty());
        r
    }

    /// The URL memoised under `key`.
    pub fn get(&self, key: &UrlCacheKey) -> (r: Option<GachaUrl>)
        ensures
            match r {
                Some(u) => self@.contains_key(key@) && self@[key@] == u@,
                None => !self@.contains_key(key@),
            },
    {
        let ghost s = self.pairs();
        let mut i: usize = self.entries.len();
        assert(s.take(i as int) =~= s);
        while i > 0
            invariant
                i <= self.entries@.len(),
                s == self.pairs(),
                lookup(s, key@) == lookup(s.take(i as int), key@),
            decreases i,
        {
            let ghost t = s.take(i as int);
            assert(t.drop_last() =~= s.take(i - 1));
            assert(t.last() == pair_view(self.entries@[i - 1]));
            if self.entries[i - 1].0.same(key) {
                return Some(self.entries[i - 1].1.clone());
            }
            i = i - 1;
        }
        None
    }

    /// Forgets the URL memoised under `key`.
    pub fn remove(&mut self, key: &UrlCacheKey)
        ensures
            final(self)@ == old(self)@.remove(key@),
    {
        let ghost s = old(self).pairs();
        let ghost pred = key_differs(key@);
        let mut kept: Vec<(UrlCacheKey, GachaUrl)> = Vec::new();
        let mut old_entries = Vec::new();
        std::mem::swap(&mut old_entries, &mut self.entries);
        let ghost all = old_entries@;
        assert(all.len() == old_entries.len());
        assert(s == all.map_values(|e: (UrlCacheKey, GachaUrl)| pair_view(e)));
        let mut rest = reversed(old_entries);
        let mut i: usize = 0;
        while rest.len() > 0
            invariant
                i + rest@.len() == all.len(),
                all.len() <= usize::MAX,
                rest@ == all.subrange(i as int, all.len() as int).reverse(),
                kept@.map_values(|e: (UrlCacheKey, GachaUrl)| pair_view(e)) == s.take(i as int).filter(pred),
                s == all.map_values(|e: (UrlCacheKey, GachaUrl)| pair_view(e)),
                pred == key_differs(key@),
            decreases rest.len(),
        {
            let ghost before_rest = rest@;
            let ghost before_kept = kept@;
            let e = rest.pop().unwrap();
            proof {
                assert(rest@ =~= before_rest.drop_last());
                assert(e == before_rest[before_rest.len() - 1]);
                assert(e == all[i as int]);
                assert(rest@ =~= all.subrange(i + 1, all.len() as int).reverse());
                assert(s.take(i + 1) =~= s.take(i as int).push(pair_view(e)));
                s.take(i as int).lemma_filter_push(pair_view(e), pred);
            }
            assert(pred(pair_view(e)) == (e.0@ != key@));
            if !e.0.same(key) {
                kept.push(e);
                assert(kept@ =~= before_kept.push(e));
                assert(kept@.map_values(|e: (UrlCacheKey, GachaUrl)| pair_view(e)) =~= before_kept.map_values(|e: (UrlCacheKey, GachaUrl)| pair_view(e)).push(pair_view(e)));
            }
            i = i + 1;
        }
        assert(s.take(i as int) =~= s);
        self.entries = kept;
        proof {
            assert(self.pairs() == s.filter(pred));
            assert forall|q: UrlKeyView| #![auto] lookup(self.pairs(), q) == if q == key@ {
                None
            } else {
                lookup(s, q)
            } by {
                lemma_lookup_without(s, key@, q);
            }
            assert forall|q: UrlKeyView| #[trigger] self@.contains_key(q) == old(self)@.remove(key@).contains_key(q) && (self@.contains_key(q) ==> self@[q] == old(self)@.remove(key@)[q]) by {
                lemma_lookup_without(s, key@, q);
            }
            assert(self@ =~= old(self)@.remove(key@));
        }
    }

    /// Memoises `url` under `key`, replacing what was there.
    pub fn insert(&mut self, key: UrlCacheKey, url: GachaUrl)
        ensures
            final(self)@ == old(self)@.insert(key@, url@),
    {
        self.remove(&key);
        let ghost mid = self.pairs();
        let ghost mid_map = self@;
        let ghost k = key@;
        let ghost v = url@;
        self.entries.push((key, url));
        proof {
            assert(self.pairs() =~= mid.push((k, v)));
            assert forall|q: UrlKeyView| #[trigger] self@.contains_key(q) == old(self)@.insert(k, v).contains_key(q) && (self@.contains_key(q) ==> self@[q] == old(self)@.insert(k, v)[q]) by {
                lemma_lookup_push(mid, (k, v), q);
                assert(mid_map.contains_key(q) == (lookup(mid, q) is Some));
                if q != k && lookup(mid, q) is Some {
                    assert(mid_map[q] == lookup(mid, q)->Some_0);
                }
            }
            assert(self@.dom() =~= old(self)@.insert(k, v).dom());
            assert(self@ =~= old(self)@.insert(k, v));
        }
    }
}


/// The memo key of candidate `u` for account `uid`: a URL without a cache
/// address counts as address 0.
pub open spec fn memo_key(facet: AccountFacet, uid: Seq<char>, u: GachaUrlView) -> UrlKeyView {
    (
        facet,
        uid,
        Some(
            match u.addr {
                Some(a) => a,
                None => 0,
            },
        ),
    )
}

/// After this many probes, the caller pauses before the next one.
pub const PROBES_PER_PAUSE: usize = 5;

/// What the caller of a validation does next.
pub enum ValidationStep {
    /// Ask the service which account `url` belongs to; pause first when `pause` is set.
    Probe { url: GachaUrl, pause: bool },
    /// Validation is over.
    Done(Result<GachaUrl, Error>),
}

/// The search, among candidate URLs, for one that belongs to account `uid`.
/// Candidates are tried newest first; the caller probes the service for each
/// candidate that [`UrlValidation::advance`] hands out and reports the answer
/// to [`UrlValidation::on_probe`].
pub struct UrlValidation {
    pub facet: AccountFacet,
    pub uid: String,
    /// The instant of the search, in Unix seconds.
    pub now: i64,
    /// The candidates still fresh at `now`, in the order given.
    pub candidates: Vec<GachaUrl>,
    /// Index of the candidate under consideration.
    pub next: usize,
}

pub open spec fn fresh_filter(now: i64) -> spec_fn(GachaUrlView) -> bool {
    |u: GachaUrlView| is_fresh(u.creation_time, now)
}

fn memo_key_of(facet: AccountFacet, uid: &String, u: &GachaUrl) -> (r: UrlCacheKey)
    ensures
        r@ == memo_key(facet, uid@, u@),
{
    let addr = match u.addr {
        Some(a) => a,
        None => 0,
    };
    UrlCacheKey { facet, uid: uid.clone(), addr: Some(addr) }
}

impl UrlValidation {
    /// Starts a search for `uid`'s URL among `urls`, dropping those created a
    /// day or more before `now`: the service has expired them.
    pub fn new(facet: AccountFacet, uid: String, urls: &Vec<GachaUrl>, now: i64) -> (r: UrlValidation)
        ensures
            r.facet == facet,
            r.uid@ == uid@,
            r.now == now,
            r.next == 0,
            url_views(r.candidates@) == url_views(urls@).filter(fresh_filter(now)),
    {
        let ghost all = url_views(urls@);
        let mut candidates: Vec<GachaUrl> = Vec::new();
        let mut i: usize = 0;
        while i < urls.len()
            invariant
                i <= urls@.len(),
                all == url_views(urls@),
                url_views(candidates@) == all.take(i as int).filter(fresh_filter(now)),
            decreases urls.len() - i,
        {
            proof {
                assert(all.take(i + 1) =~= all.take(i as int).push(urls@[i as int]@));
                all.take(i as int).lemma_filter_push(urls@[i as int]@, fresh_filter(now));
            }
            if fresh_at(urls[i].creation_time, now) {
                let ghost before = candidates@;
                candidates.push(urls[i].clone());
                assert(url_views(candidates@) =~= url_views(before).push(urls@[i as int]@));
            }
            i = i + 1;
        }
        assert(all.take(i as int) =~= all);
        UrlValidation { facet, uid, now, candidates, next: 0 }
    }

    /// The next thing to do: answer from the memo when it holds a fresh URL
    /// for the current candidate (a stale one is dropped), else probe it;
    /// when no candidate is left, the search has failed.
    pub fn advance(&self, cache: &mut UrlCache) -> (r: ValidationStep)
        ensures
            self.next >= self.candidates@.len() ==> final(cache)@ == old(cache)@ && (r matches ValidationStep::Done(Err(e)) && e == Error::VacantGachaUrl),
            self.next < self.candidates@.len() ==> ({
                let u = self.candidates@[self.next as int]@;
                let k = memo_key(self.facet, self.uid@, u);
                if old(cache)@.contains_key(k) && is_fresh(old(cache)@[k].creation_time, self.now) {
                    final(cache)@ == old(cache)@ && (r matches ValidationStep::Done(Ok(found)) && found@ == old(cache)@[k])
                } else {
                    final(cache)@ == old(cache)@.remove(k) && (r matches ValidationStep::Probe { url, pause } && url@ == u && pause == (self.next != 0 && self.next % PROBES_PER_PAUSE == 0))
                }
            }),
    {
        if self.next >= self.candidates.len() {
            return ValidationStep::Done(Err(Error::VacantGachaUrl));
        }
        let u = &self.candidates[self.next];
        let key = memo_key_of(self.facet, &self.uid, u);
        match cache.get(&key) {
            Some(found) => {
                if fresh_at(found.creation_time, self.now) {
                    return ValidationStep::Done(Ok(found));
                }
                cache.remove(&key);
            },
            None => {
                cache.remove(&key);
                assert(old(cache)@.remove(key@) =~= old(cache)@);
            },
        }
        ValidationStep::Probe {
            url: u.clone(),
            pause: self.next != 0 && self.next % PROBES_PER_PAUSE == 0,
        }
    }

    /// Takes the probe's answer for the current candidate. Any account id
    /// the service names is memoised with the candidate. A match ends the
    /// search; a mismatch, an unnamed account or an expired authorisation
    /// moves on to the next candidate; another status code ends the search
    /// as vacant, and any other failure ends it with that failure.
    pub fn on_probe(&mut self, cache: &mut UrlCache, result: Result<Option<String>, Error>) -> (r: Option<Result<GachaUrl, Error>>)
        requires
            old(self).next < old(self).candidates@.len(),
        ensures
            final(self).facet == old(self).facet,
            final(self).uid == old(self).uid,
            final(self).now == old(self).now,
            final(self).candidates == old(self).candidates,
            final(self).next <= final(self).candidates@.len(),
            ({
                let u = old(self).candidates@[old(self).next as int]@;
                match result {
                    Ok(Some(id)) => final(cache)@ == old(cache)@.insert(memo_key(old(self).facet, id@, u), u) && if id@ == old(self).uid@ {
                        final(self).next == old(self).next && (r matches Some(Ok(found)) && found@ == u)
                    } else {
                        final(self).next == old(self).next + 1 && r is None
                    },
                    Ok(None) => final(cache)@ == old(cache)@ && final(self).next == old(self).next + 1 && r is None,
                    Err(Error::TimedOutGachaUrl) => final(cache)@ == old(cache)@ && final(self).next == old(self).next + 1 && r is None,
                    Err(Error::GachaRecordRetcode { .. }) => final(cache)@ == old(cache)@ && final(self).next == old(self).next && r == Some(Err::<GachaUrl, Error>(Error::VacantGachaUrl)),
                    Err(e) => final(cache)@ == old(cache)@ && final(self).next == old(self).next && r == Some(Err::<GachaUrl, Error>(e)),
                }
            }),
    {
        let n = self.candidates.len();
        assert(self.next < n);
        match result {
            Ok(Some(id)) => {
                let u = self.candidates[self.next].clone();
                let key = memo_key_of(self.facet, &id, &u);
                let matched = id == self.uid;
                cache.insert(key, u.clone());
                if matched {
                    Some(Ok(u))
                } else {
                    self.next = self.next + 1;
                    None
                }
            },
            Ok(None) => {
                self.next = self.next + 1;
                None
            },
            Err(Error::TimedOutGachaUrl) => {
                self.next = self.next + 1;
                None
            },
            Err(Error::GachaRecordRetcode { .. }) => Some(Err(Error::VacantGachaUrl)),
            Err(e) => Some(Err(e)),
        }
    }
}

/// The URL chosen for a Kuro-style account.
pub struct KuroUrlChoice {
    pub url: GachaUrl,
    /// Pause before using the URL.
    pub pause: bool,
}

/// Picks the URL for account `uid` of a service that serves full histories:
/// the fresh memoised one if any (a stale one is dropped), else the last of
/// `urls`.
pub fn find_kuro_gacha_url(
    cache: &mut UrlCache,
    facet: AccountFacet,
    uid: &String,
    urls: &Vec<GachaUrl>,
    now: i64,
) -> (r: Result<KuroUrlChoice, Error>)
    ensures
        urls@.len() == 0 ==> final(cache)@ == old(cache)@ && r == Err::<KuroUrlChoice, Error>(Error::VacantGachaUrl),
        urls@.len() > 0 ==> ({
            let n = urls@.len() - 1;
            let k = (facet, uid@, None::<u32>);
            if old(cache)@.contains_key(k) && is_fresh(old(cache)@[k].creation_time, now) {
                final(cache)@ == old(cache)@ && (r matches Ok(c) && c.url@ == old(cache)@[k] && !c.pause)
            } else {
                final(cache)@ == old(cache)@.remove(k) && (r matches Ok(c) && c.url@ == urls@[n]@ && c.pause == (n != 0 && n % PROBES_PER_PAUSE as int == 0))
            }
        }),
{
    if urls.len() == 0 {
        return Err(Error::VacantGachaUrl);
    }
    let n = urls.len() - 1;
    let key = UrlCacheKey { facet, uid: uid.clone(), addr: None };
    match cache.get(&key) {
        Some(found) => {
            if fresh_at(found.creation_time, now) {
                return Ok(KuroUrlChoice { url: found, pause: false });
            }
            cache.remove(&key);
        },
        None => {
            cache.remove(&key);
            assert(old(cache)@.remove(key@) =~= old(cache)@);
        },
    }
    Ok(KuroUrlChoice { url: urls[n].clone(), pause: n != 0 && n % PROBES_PER_PAUSE == 0 })
}

} // verus!
