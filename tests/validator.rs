use gacha_tracker::gacha::{AccountFacet, Error, GachaUrl};
use gacha_tracker::validator::{
    find_kuro_gacha_url, UrlCache, UrlCacheKey, UrlValidation, ValidationStep,
};

const NOW: i64 = 1_700_000_000;

fn url(addr: u32, created: i64, value: &str) -> GachaUrl {
    GachaUrl { addr: Some(addr), creation_time: created, value: value.to_string() }
}

fn key(facet: AccountFacet, uid: &str, addr: Option<u32>) -> UrlCacheKey {
    UrlCacheKey { facet, uid: uid.to_string(), addr }
}

/// Runs a validation, answering each probe from `answer`; returns the outcome
/// and the URLs probed, in order.
fn run(
    v: &mut UrlValidation,
    cache: &mut UrlCache,
    answer: impl Fn(&GachaUrl) -> Result<Option<String>, Error>,
) -> (Result<GachaUrl, Error>, Vec<String>, Vec<bool>) {
    let mut probed = Vec::new();
    let mut pauses = Vec::new();
    loop {
        match v.advance(cache) {
            ValidationStep::Done(r) => return (r, probed, pauses),
            ValidationStep::Probe { url, pause } => {
                probed.push(url.value.clone());
                pauses.push(pause);
                if let Some(done) = v.on_probe(cache, answer(&url)) {
                    return (done, probed, pauses);
                }
            },
        }
    }
}

#[test]
fn probes_stop_at_the_matching_candidate() {
    let urls = vec![url(1, NOW - 10, "u1"), url(2, NOW - 20, "u2"), url(3, NOW - 30, "u3")];
    let mut cache = UrlCache::new();
    let mut v = UrlValidation::new(AccountFacet::Genshin, "800000001".to_string(), &urls, NOW);
    let (r, probed, _) = run(&mut v, &mut cache, |u| {
        Ok(Some(if u.value == "u2" { "800000001" } else { "800000002" }.to_string()))
    });
    assert_eq!(r.unwrap().value, "u2");
    assert_eq!(probed, vec!["u1", "u2"]);
    let first = cache.get(&key(AccountFacet::Genshin, "800000002", Some(1))).unwrap();
    assert_eq!(first.value, "u1");
    let second = cache.get(&key(AccountFacet::Genshin, "800000001", Some(2))).unwrap();
    assert_eq!(second.value, "u2");
    assert!(cache.get(&key(AccountFacet::Genshin, "800000001", Some(3))).is_none());
}

#[test]
fn memo_answers_without_probing() {
    let urls = vec![url(1, NOW - 10, "u1")];
    let mut cache = UrlCache::new();
    cache.insert(key(AccountFacet::Genshin, "42", Some(1)), url(1, NOW - 100, "memo"));
    let mut v = UrlValidation::new(AccountFacet::Genshin, "42".to_string(), &urls, NOW);
    let (r, probed, _) = run(&mut v, &mut cache, |_| panic!("no probe expected"));
    assert_eq!(r.unwrap().value, "memo");
    assert!(probed.is_empty());
}

#[test]
fn stale_memo_entry_is_removed_not_returned() {
    let urls = vec![url(1, NOW - 10, "u1")];
    let mut cache = UrlCache::new();
    let k = key(AccountFacet::Genshin, "42", Some(1));
    cache.insert(key(AccountFacet::Genshin, "42", Some(1)), url(1, NOW - 86_400, "stale"));
    let v = UrlValidation::new(AccountFacet::Genshin, "42".to_string(), &urls, NOW);
    match v.advance(&mut cache) {
        ValidationStep::Probe { url, pause } => {
            assert_eq!(url.value, "u1");
            assert!(!pause);
        },
        ValidationStep::Done(_) => panic!("expected a probe"),
    }
    assert!(cache.get(&k).is_none());
}

#[test]
fn candidates_a_day_old_are_not_probed() {
    let urls = vec![url(1, NOW - 86_400, "old"), url(2, NOW - 86_399, "young")];
    let v = UrlValidation::new(AccountFacet::StarRail, "7".to_string(), &urls, NOW);
    assert_eq!(v.candidates.len(), 1);
    assert_eq!(v.candidates[0].value, "young");
}

#[test]
fn no_match_is_vacant() {
    let urls = vec![url(1, NOW, "u1"), url(2, NOW, "u2")];
    let mut cache = UrlCache::new();
    let mut v = UrlValidation::new(AccountFacet::Genshin, "1".to_string(), &urls, NOW);
    let (r, probed, _) = run(&mut v, &mut cache, |_| Ok(None));
    assert!(matches!(r, Err(Error::VacantGachaUrl)));
    assert_eq!(probed.len(), 2);
    let empty: Vec<GachaUrl> = Vec::new();
    let mut v = UrlValidation::new(AccountFacet::Genshin, "1".to_string(), &empty, NOW);
    assert!(matches!(run(&mut v, &mut cache, |_| Ok(None)).0, Err(Error::VacantGachaUrl)));
}

#[test]
fn expired_authorisation_moves_on() {
    let urls = vec![url(1, NOW, "u1"), url(2, NOW, "u2")];
    let mut cache = UrlCache::new();
    let mut v = UrlValidation::new(AccountFacet::Genshin, "9".to_string(), &urls, NOW);
    let (r, probed, _) = run(&mut v, &mut cache, |u| {
        if u.value == "u1" { Err(Error::TimedOutGachaUrl) } else { Ok(Some("9".to_string())) }
    });
    assert_eq!(r.unwrap().value, "u2");
    assert_eq!(probed, vec!["u1", "u2"]);
}

#[test]
fn other_status_code_ends_as_vacant() {
    let urls = vec![url(1, NOW, "u1"), url(2, NOW, "u2")];
    let mut cache = UrlCache::new();
    let mut v = UrlValidation::new(AccountFacet::Genshin, "9".to_string(), &urls, NOW);
    let (r, probed, _) = run(&mut v, &mut cache, |_| {
        Err(Error::GachaRecordRetcode { retcode: -1, message: "visit too frequently".to_string() })
    });
    assert!(matches!(r, Err(Error::VacantGachaUrl)));
    assert_eq!(probed, vec!["u1"]);
}

#[test]
fn other_failure_is_passed_on() {
    let urls = vec![url(1, NOW, "u1")];
    let mut cache = UrlCache::new();
    let mut v = UrlValidation::new(AccountFacet::Genshin, "9".to_string(), &urls, NOW);
    let (r, _, _) = run(&mut v, &mut cache, |_| Err(Error::IllegalGachaUrl));
    assert!(matches!(r, Err(Error::IllegalGachaUrl)));
}

#[test]
fn pause_before_every_fifth_probe() {
    let urls: Vec<GachaUrl> = (0..11).map(|i| url(i, NOW, &format!("u{i}"))).collect();
    let mut cache = UrlCache::new();
    let mut v = UrlValidation::new(AccountFacet::Genshin, "x".to_string(), &urls, NOW);
    let (_, probed, pauses) = run(&mut v, &mut cache, |_| Ok(Some("y".to_string())));
    assert_eq!(probed.len(), 11);
    let paused: Vec<usize> = pauses.iter().enumerate().filter(|(_, p)| **p).map(|(i, _)| i).collect();
    assert_eq!(paused, vec![5, 10]);
}

#[test]
fn cache_insert_replaces_and_remove_forgets() {
    let mut cache = UrlCache::new();
    cache.insert(key(AccountFacet::Genshin, "1", None), url(1, 1, "a"));
    cache.insert(key(AccountFacet::Genshin, "1", None), url(1, 2, "b"));
    cache.insert(key(AccountFacet::StarRail, "1", None), url(1, 3, "c"));
    assert_eq!(cache.get(&key(AccountFacet::Genshin, "1", None)).unwrap().value, "b");
    cache.remove(&key(AccountFacet::Genshin, "1", None));
    assert!(cache.get(&key(AccountFacet::Genshin, "1", None)).is_none());
    assert_eq!(cache.get(&key(AccountFacet::StarRail, "1", None)).unwrap().value, "c");
}

#[test]
fn kuro_url_is_the_last_candidate() {
    let mut cache = UrlCache::new();
    let urls = vec![url(0, NOW, "first"), url(0, NOW, "last")];
    let c = find_kuro_gacha_url(&mut cache, AccountFacet::WutheringWaves, &"5".to_string(), &urls, NOW).unwrap();
    assert_eq!(c.url.value, "last");
    assert!(!c.pause);
    let empty: Vec<GachaUrl> = Vec::new();
    let r = find_kuro_gacha_url(&mut cache, AccountFacet::WutheringWaves, &"5".to_string(), &empty, NOW);
    assert!(matches!(r, Err(Error::VacantGachaUrl)));
}

#[test]
fn kuro_url_from_fresh_memo() {
    let mut cache = UrlCache::new();
    cache.insert(key(AccountFacet::WutheringWaves, "5", None), url(0, NOW - 5, "memo"));
    let urls = vec![url(0, NOW, "log")];
    let c = find_kuro_gacha_url(&mut cache, AccountFacet::WutheringWaves, &"5".to_string(), &urls, NOW).unwrap();
    assert_eq!(c.url.value, "memo");
}
