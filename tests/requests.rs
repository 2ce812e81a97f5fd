use gacha_tracker::gacha::{check_retcode, Error};
use gacha_tracker::requests::{build_kuro_query, build_page_params, build_page_url, kuro_query_from_pairs};
use gacha_tracker::services::{GENSHIN_ENDPOINT, KURO_ENDPOINT};

#[test]
fn page_url_rebuilds_paging_parameters() {
    let url = "https://h.example/api/getGachaLog?authkey=a%2Bb&gacha_type=301&page=3&size=5&end_id=99&lang=en";
    let r = build_page_url(GENSHIN_ENDPOINT, url, Some("200"), Some("123")).unwrap();
    assert_eq!(
        r,
        "https://h.example/api/getGachaLog?authkey=a%2Bb&lang=en&page=1&size=20&gacha_type=200&end_id=123"
    );
}

#[test]
fn page_url_keeps_own_category_and_cursor() {
    let url = "https://h.example/api/getGachaLog?gacha_type=301&end_id=99";
    let r = build_page_url(GENSHIN_ENDPOINT, url, None, None).unwrap();
    assert_eq!(r, "https://h.example/api/getGachaLog?page=1&size=20&gacha_type=301&end_id=99");
    let url = "https://h.example/api/getGachaLog?gacha_type=301";
    let r = build_page_url(GENSHIN_ENDPOINT, url, None, None).unwrap();
    assert_eq!(r, "https://h.example/api/getGachaLog?page=1&size=20&gacha_type=301");
}

#[test]
fn page_url_needs_endpoint_and_category() {
    let r = build_page_url(GENSHIN_ENDPOINT, "https://h.example/other?gacha_type=1", None, None);
    assert_eq!(r, Err(Error::IllegalGachaUrl));
    let r = build_page_url(GENSHIN_ENDPOINT, "https://h.example/api/getGachaLog?authkey=a", None, None);
    assert_eq!(r, Err(Error::IllegalGachaUrl));
    let r = build_page_url(GENSHIN_ENDPOINT, "no-scheme/api/getGachaLog?gacha_type=1", None, None);
    assert_eq!(r, Err(Error::IllegalGachaUrl));
}

#[test]
fn kuro_query_reads_url_parameters() {
    let url = "https://aki-gm-resources.aki-game.com/aki/gacha/index.html#/record?svr_id=s1&player_id=u77&lang=en&gacha_id=100&gacha_type=6&svr_area=global&record_id=r1&resources_id=pool1";
    let q = build_kuro_query(KURO_ENDPOINT, url, Some("1")).unwrap();
    assert_eq!(q.card_pool_id, "pool1");
    assert_eq!(q.card_pool_type, "1");
    assert_eq!(q.language_code, "en");
    assert_eq!(q.player_id, "u77");
    assert_eq!(q.record_id, "r1");
    assert_eq!(q.server_id, "s1");
    let q = build_kuro_query(KURO_ENDPOINT, url, None).unwrap();
    assert_eq!(q.card_pool_type, "6");
}

#[test]
fn kuro_query_needs_every_parameter() {
    let url = "https://x/aki/gacha/index.html#/record?svr_id=s1&player_id=u77&gacha_type=6&record_id=r1";
    assert!(matches!(build_kuro_query(KURO_ENDPOINT, url, None), Err(Error::IllegalGachaUrl)));
    assert!(matches!(build_kuro_query(KURO_ENDPOINT, "https://x/", None), Err(Error::IllegalGachaUrl)));
}

#[test]
fn retcodes_map_to_errors() {
    assert_eq!(check_retcode(None, String::new()), Ok(()));
    assert_eq!(check_retcode(Some(0), "OK".to_string()), Ok(()));
    assert_eq!(check_retcode(Some(-101), "authkey timeout".to_string()), Err(Error::TimedOutGachaUrl));
    assert_eq!(
        check_retcode(Some(-110), "visit too frequently".to_string()),
        Err(Error::GachaRecordRetcode { retcode: -110, message: "visit too frequently".to_string() })
    );
}

fn pairs(v: &[(&str, &str)]) -> Vec<(String, String)> {
    v.iter().map(|(k, x)| (k.to_string(), x.to_string())).collect()
}

#[test]
fn page_params_replace_paging_pairs() {
    let own = pairs(&[("lang", "de"), ("authkey", "k"), ("page", "4"), ("gacha_type", "301"), ("begin_id", "1"), ("lang", "en"), ("gacha_type", "400")]);
    let out = build_page_params(own, None, None).unwrap();
    assert_eq!(out, pairs(&[("authkey", "k"), ("lang", "en"), ("page", "1"), ("size", "20"), ("gacha_type", "400")]));
    let out = build_page_params(pairs(&[("gacha_type", "1"), ("end_id", "5")]), Some("2"), Some("7")).unwrap();
    assert_eq!(out, pairs(&[("page", "1"), ("size", "20"), ("gacha_type", "2"), ("end_id", "7")]));
    assert!(build_page_params(pairs(&[("authkey", "k")]), Some("2"), None).is_none());
}

#[test]
fn kuro_query_from_decoded_pairs() {
    let p = pairs(&[("resources_id", "r"), ("player_id", "p"), ("record_id", "c"), ("svr_id", "s"), ("gacha_type", "6")]);
    let q = kuro_query_from_pairs(&p, None).unwrap();
    assert_eq!((q.card_pool_id.as_str(), q.card_pool_type.as_str(), q.server_id.as_str()), ("r", "6", "s"));
    assert!(matches!(kuro_query_from_pairs(&p[1..].to_vec(), None), Err(Error::IllegalGachaUrl)));
    let mut later = p.clone();
    later.push(("svr_id".to_string(), "t".to_string()));
    assert_eq!(kuro_query_from_pairs(&later, None).unwrap().server_id, "t");
}
