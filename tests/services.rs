use gacha_tracker::dict::{
    id, name, read_dictionaries, Category, Dictionaries, DictionaryObject,
};
use gacha_tracker::gacha::AccountFacet;
use gacha_tracker::plugin::GachaPluginBuilder;
use gacha_tracker::record_time::RecordTime;
use gacha_tracker::records::{GachaRecord, GenshinGacha, GenshinGachaRecord, WutheringWavesGacha, WutheringWavesGachaRecord};
use gacha_tracker::services::{is_after, path_from_log_line, single_link, url_from_log_line, GENSHIN_DIR_KEYWORD};
use gacha_tracker::storage::Model;

fn dictionaries() -> Dictionaries {
    let objects = vec![
        DictionaryObject {
            category: Category::Character,
            category_name: "Character".to_string(),
            entries: vec![
                ("Kamisato Ayaka".to_string(), "10000002".to_string(), 5),
                ("Amber".to_string(), "10000021".to_string(), 4),
            ],
        },
        DictionaryObject {
            category: Category::Weapon,
            category_name: "Weapon".to_string(),
            entries: vec![
                ("Mistsplitter Reforged".to_string(), "11509".to_string(), 5),
                ("Amber".to_string(), "99999".to_string(), 3),
            ],
        },
    ];
    let en = read_dictionaries("en-us", objects);
    Dictionaries { dictionaries: vec![(AccountFacet::Genshin, en)] }
}

#[test]
fn dictionary_lookup_by_name_and_id() {
    let d = dictionaries();
    let e = name(&d, AccountFacet::Genshin, "en-us", "Mistsplitter Reforged").unwrap();
    assert_eq!(e.item_id, "11509");
    assert_eq!(e.category, Category::Weapon);
    assert_eq!(e.rank_type, 5);
    assert_eq!(e.lang, "en-us");
    assert_eq!(id(&d, AccountFacet::Genshin, "en-us", "10000002").unwrap().item_name, "Kamisato Ayaka");
    assert!(name(&d, AccountFacet::Genshin, "en-us", "Nobody").is_none());
    assert!(name(&d, AccountFacet::Genshin, "zh-cn", "Amber").is_none());
    assert!(name(&d, AccountFacet::StarRail, "en-us", "Amber").is_none());
}

#[test]
fn later_entry_of_same_name_wins() {
    let d = dictionaries();
    assert_eq!(name(&d, AccountFacet::Genshin, "en-us", "Amber").unwrap().item_id, "99999");
}

fn genshin(name: &str, uid: &str) -> GenshinGachaRecord {
    GenshinGachaRecord {
        id: "1700000000000000001".to_string(),
        uid: uid.to_string(),
        gacha_type: "301".to_string(),
        item_id: String::new(),
        count: "1".to_string(),
        time: "2024-01-01 00:00:00".to_string(),
        name: name.to_string(),
        lang: "en-us".to_string(),
        item_type: "Character".to_string(),
        rank_type: "5".to_string(),
    }
}

#[test]
fn genshin_records_get_item_ids_by_name() {
    let d = dictionaries();
    let out = GenshinGacha::normalize_records(&d, vec![genshin("Kamisato Ayaka", "1"), genshin("Unknown", "1")]);
    assert_eq!(out[0].item_id, "10000002");
    assert_eq!(out[0].name, "Kamisato Ayaka");
    assert_eq!(out[1].item_id, "");
    assert_eq!(out[0].id(), "1700000000000000001");
}

#[test]
fn first_record_names_the_account() {
    assert_eq!(GenshinGacha::uid_of_first(&Some(vec![genshin("a", "800000001"), genshin("b", "2")])), Some("800000001".to_string()));
    assert_eq!(GenshinGacha::uid_of_first(&Some(Vec::new())), None);
    assert_eq!(GenshinGacha::uid_of_first(&None), None);
}

fn ww(time: &str) -> WutheringWavesGachaRecord {
    WutheringWavesGachaRecord {
        id: None,
        uid: None,
        gacha_type: None,
        card_pool_type: "1".to_string(),
        resource_id: 1,
        quality_level: 4,
        resource_type: "Resonator".to_string(),
        name: "Aalto".to_string(),
        count: 1,
        time: time.to_string(),
    }
}

const NOW: RecordTime = RecordTime { year: 2024, month: 6, day: 1, hour: 0, minute: 0, second: 0, nanosecond: 5 };

#[test]
fn full_history_is_trimmed_at_last_time() {
    let data = vec![ww("2024-05-26 12:00:01"), ww("2024-05-26 12:00:00"), ww("2024-05-20 08:00:00")];
    let out = WutheringWavesGacha::new_records("900", Some("1"), Some("2024-05-26 12:00:00"), Some(data), NOW).unwrap();
    assert_eq!(out.len(), 1);
    assert_eq!(out[0].time, "2024-05-26 12:00:01");
    assert_eq!(out[0].uid.as_deref(), Some("900"));
    assert_eq!(out[0].gacha_type.as_deref(), Some("1"));
}

#[test]
fn full_history_without_last_time_keeps_all() {
    let data = vec![ww("bad time"), ww("2024-05-20 08:00:00")];
    let out = WutheringWavesGacha::new_records("900", None, None, Some(data), NOW).unwrap();
    assert_eq!(out.len(), 2);
    assert_eq!(out[1].gacha_type, None);
    assert!(WutheringWavesGacha::new_records("900", None, None, None, NOW).is_none());
}

#[test]
fn unparsable_times_count_as_now() {
    // A record whose time does not parse is "now", which is after any past last time.
    let out = WutheringWavesGacha::new_records("9", None, Some("2024-05-26 12:00:00"), Some(vec![ww("??")]), NOW).unwrap();
    assert_eq!(out.len(), 1);
    // A last time that does not parse is "now": nothing is after it.
    let out = WutheringWavesGacha::new_records("9", None, Some("??"), Some(vec![ww("2024-05-26 12:00:00")]), NOW).unwrap();
    assert!(out.is_empty());
}

#[test]
fn record_time_grammar() {
    let t = RecordTime::parse("2024-02-29 23:59:59").unwrap();
    assert_eq!((t.year, t.month, t.day, t.hour, t.minute, t.second), (2024, 2, 29, 23, 59, 59));
    assert!(RecordTime::parse("2023-02-29 00:00:00").is_none());
    assert!(RecordTime::parse("2024-13-01 00:00:00").is_none());
    assert!(RecordTime::parse("2024-01-01 24:00:00").is_none());
    assert!(RecordTime::parse("2024-01-01T00:00:00").is_none());
    assert!(RecordTime::parse("2024-1-01 00:00:00").is_none());
    assert_eq!(RecordTime::parse("1900-02-28 00:00:00").unwrap().day, 28);
    assert!(RecordTime::parse("1900-02-29 00:00:00").is_none());
}

#[test]
fn log_line_with_one_link() {
    let line = "[2024.05.26-12.00.00:000][  0]LogTemp: url https://aki-gm-resources-oversea.aki-game.net/aki/gacha/index.html#/record?svr_id=1&player_id=2 opened";
    let u = url_from_log_line(line).unwrap();
    assert_eq!(u, "https://aki-gm-resources-oversea.aki-game.net/aki/gacha/index.html#/record?svr_id=1&player_id=2");
    assert!(url_from_log_line("nothing here https://example.com").is_none());
    let two = "https://a.com/aki/gacha/index.html#/record?x=1 https://b.com/";
    assert!(url_from_log_line(two).is_none());
}

#[test]
fn log_urls_are_collected_in_line_order() {
    let lines = vec![
        "a https://x.net/aki/gacha/index.html#/record?n=1".to_string(),
        "unrelated".to_string(),
        "b https://x.net/aki/gacha/index.html#/record?n=2".to_string(),
    ];
    let urls = WutheringWavesGacha::find_gacha_urls(&lines, 77);
    assert_eq!(urls.len(), 2);
    assert_eq!(urls[0].value, "https://x.net/aki/gacha/index.html#/record?n=1");
    assert_eq!(urls[1].creation_time, 77);
    assert_eq!(urls[1].addr, None);
}

#[test]
fn storage_row_round_trip() {
    let mut rec = ww("2024-05-26 12:00:00");
    rec.id = Some("abc".to_string());
    rec.uid = Some("900".to_string());
    let row = Model::from_record(rec.clone());
    assert_eq!(row.id, "abc");
    assert_eq!(row.gacha_type, "");
    let back = WutheringWavesGachaRecord::from_model(row);
    assert_eq!(back.id, rec.id);
    assert_eq!(back.gacha_type, Some(String::new()));
    assert_eq!(back.id(), "abc");
    assert_eq!(ww("x").id(), "");
}

#[test]
fn plugin_builder_name() {
    assert_eq!(GachaPluginBuilder::new().name(), "gacha");
    assert_eq!(GachaPluginBuilder::new(), GachaPluginBuilder::default());
}

#[test]
fn game_directory_from_output_log_line() {
    let line = "Warmup file C:/Program Files/Genshin Impact/Genshin Impact Game/GenshinImpact_Data/StreamingAssets/x.blk";
    assert_eq!(
        path_from_log_line(line, GENSHIN_DIR_KEYWORD).unwrap(),
        "C:/Program Files/Genshin Impact/Genshin Impact Game/GenshinImpact_Data/"
    );
    assert!(path_from_log_line("no keyword C:/x", GENSHIN_DIR_KEYWORD).is_none());
    assert!(path_from_log_line("/GenshinImpact_Data/ without colon", GENSHIN_DIR_KEYWORD).is_none());
    assert!(path_from_log_line(":/GenshinImpact_Data/", GENSHIN_DIR_KEYWORD).is_none());
    assert!(path_from_log_line("/GenshinImpact_Data/ later D:", GENSHIN_DIR_KEYWORD).is_none());
}

#[test]
fn single_link_rule() {
    assert_eq!(single_link(vec!["https://a".to_string()]), Some("https://a".to_string()));
    assert_eq!(single_link(Vec::new()), None);
    assert_eq!(single_link(vec!["a".to_string(), "b".to_string()]), None);
}

#[test]
fn record_time_from_parts_and_order() {
    let t = RecordTime::from_parts(Some((2024, 5, 26, 12, 0, 1))).unwrap();
    assert_eq!(t.nanosecond, 0);
    assert!(RecordTime::from_parts(None).is_none());
    let earlier = RecordTime::parse("2024-05-26 12:00:00");
    assert!(is_after(Some(t), earlier, NOW));
    assert!(!is_after(earlier, Some(t), NOW));
    assert!(is_after(None, earlier, NOW));
    assert!(!is_after(Some(t), None, NOW));
}
