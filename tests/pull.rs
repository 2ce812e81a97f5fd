use gacha_tracker::pull::{
    keep_after, GachaRecordFetcherChannelFragment as Fragment, GachaRecordPull,
    KuroGachaRecordPull, PullCommand,
};
use gacha_tracker::records::{GachaRecord, GenshinGachaRecord, WutheringWavesGachaRecord};

fn record(id: &str) -> GenshinGachaRecord {
    GenshinGachaRecord {
        id: id.to_string(),
        uid: "100000001".to_string(),
        gacha_type: "301".to_string(),
        item_id: String::new(),
        count: "1".to_string(),
        time: "2024-01-01 00:00:00".to_string(),
        name: "Item".to_string(),
        lang: "en-us".to_string(),
        item_type: "Weapon".to_string(),
        rank_type: "3".to_string(),
    }
}

fn page(ids: &[&str]) -> Vec<GenshinGachaRecord> {
    ids.iter().map(|i| record(i)).collect()
}

/// A fragment as text, to compare sequences of them.
fn show(c: &PullCommand<GenshinGachaRecord>) -> String {
    match c {
        PullCommand::Emit(Fragment::Sleeping) => "Sleeping".to_string(),
        PullCommand::Emit(Fragment::Ready(t)) => format!("Ready({t})"),
        PullCommand::Emit(Fragment::Pagination(n)) => format!("Pagination({n})"),
        PullCommand::Emit(Fragment::Data(d)) => {
            let ids: Vec<&str> = d.iter().map(|r| r.id()).collect();
            format!("Data({})", ids.join(","))
        },
        PullCommand::Emit(Fragment::Finished) => "Finished".to_string(),
        PullCommand::Sleep => "sleep".to_string(),
        PullCommand::Fetch { gacha_type, cursor } => {
            format!("fetch({gacha_type},{})", cursor.clone().unwrap_or_default())
        },
    }
}

/// Runs a whole pull; `pages(category, end_id)` answers each fetch.
fn run(
    categories: Vec<(String, Option<String>)>,
    pages: impl Fn(&str, &str) -> Option<Vec<GenshinGachaRecord>>,
) -> Vec<String> {
    let (mut pull, mut cmds) = GachaRecordPull::start::<GenshinGachaRecord>(categories);
    let mut log = Vec::new();
    loop {
        let mut fetch = None;
        for c in &cmds {
            log.push(show(c));
            if let PullCommand::Fetch { gacha_type, cursor } = c {
                fetch = Some((gacha_type.clone(), cursor.clone().unwrap_or_default()));
            }
        }
        match fetch {
            Some((t, e)) => cmds = pull.on_page(pages(&t, &e)),
            None => return log,
        }
    }
}

fn fragments(log: &[String]) -> Vec<String> {
    log.iter().filter(|s| !s.starts_with("fetch") && *s != "sleep").cloned().collect()
}

#[test]
fn resume_cursor_trims_and_ends_category() {
    let log = run(vec![("301".to_string(), Some("3".to_string()))], |_, end_id| match end_id {
        "0" => Some(page(&["5", "4", "3", "2", "1"])),
        "1" => Some(page(&["10", "9", "8", "7", "6"])),
        _ => Some(Vec::new()),
    });
    assert_eq!(fragments(&log), vec!["Ready(301)", "Pagination(1)", "Data(5,4)", "Finished"]);
    assert_eq!(log.iter().filter(|s| *s == "Finished").count(), 1);
    assert_eq!(log.last().unwrap(), "Finished");
}

#[test]
fn pages_follow_last_id_until_empty() {
    let log = run(vec![("301".to_string(), None)], |_, end_id| match end_id {
        "0" => Some(page(&["10", "9", "8", "7", "6"])),
        "6" => Some(page(&["5", "4", "3", "2", "1"])),
        _ => Some(Vec::new()),
    });
    assert_eq!(
        log,
        vec![
            "Ready(301)", "sleep", "Pagination(1)", "fetch(301,0)", "Data(10,9,8,7,6)", "sleep",
            "Pagination(2)", "fetch(301,6)", "Data(5,4,3,2,1)", "sleep", "Pagination(3)",
            "fetch(301,1)", "Finished",
        ]
    );
}

#[test]
fn every_fifth_page_sleeps_first() {
    let log = run(vec![("200".to_string(), None)], |_, end_id| {
        let n: u32 = end_id.parse().unwrap();
        if n < 6 { Some(page(&[&(n + 1).to_string()])) } else { None }
    });
    let f = fragments(&log);
    let at = f.iter().position(|s| s == "Pagination(5)").unwrap();
    assert_eq!(f[at - 1], "Sleeping");
    assert_eq!(f.iter().filter(|s| *s == "Sleeping").count(), 1);
    assert_eq!(f.last().unwrap(), "Finished");
}

#[test]
fn categories_run_one_after_another() {
    let log = run(
        vec![("100".to_string(), None), ("200".to_string(), None)],
        |t, end_id| if end_id == "0" { Some(page(&[&format!("{t}9")])) } else { Some(Vec::new()) },
    );
    let f = fragments(&log);
    assert_eq!(
        f,
        vec![
            "Ready(100)", "Pagination(1)", "Data(1009)", "Pagination(2)", "Finished",
            "Ready(200)", "Pagination(1)", "Data(2009)", "Pagination(2)", "Finished",
        ]
    );
}

#[test]
fn no_categories_no_commands() {
    let (_, cmds) = GachaRecordPull::start::<GenshinGachaRecord>(Vec::new());
    assert!(cmds.is_empty());
}

#[test]
fn keep_after_drops_ids_not_after_cursor() {
    let kept = keep_after(&Some("1003".to_string()), page(&["1005", "1004", "1003", "0999", "1010"]));
    let ids: Vec<&str> = kept.iter().map(|r| r.id()).collect();
    assert_eq!(ids, vec!["1005", "1004", "1010"]);
    let all = keep_after(&None, page(&["2", "1"]));
    assert_eq!(all.len(), 2);
}

fn ww(name: &str) -> WutheringWavesGachaRecord {
    WutheringWavesGachaRecord {
        id: None,
        uid: None,
        gacha_type: None,
        card_pool_type: "1".to_string(),
        resource_id: 21010043,
        quality_level: 3,
        resource_type: "Weapon".to_string(),
        name: name.to_string(),
        count: 1,
        time: "2024-05-26 12:00:00".to_string(),
    }
}

#[test]
fn full_history_pull_fetches_each_category_once() {
    let (mut pull, first) = KuroGachaRecordPull::start::<WutheringWavesGachaRecord>(vec![
        ("1".to_string(), Some("2024-05-01 00:00:00".to_string())),
        ("2".to_string(), None),
    ]);
    assert_eq!(first.len(), 3);
    assert!(matches!(&first[0], PullCommand::Emit(Fragment::Ready(t)) if t == "1"));
    assert!(matches!(&first[2], PullCommand::Fetch { gacha_type, cursor: Some(c) } if gacha_type == "1" && c == "2024-05-01 00:00:00"));
    let next = pull.on_records(Some(vec![ww("a")]));
    assert!(matches!(&next[0], PullCommand::Emit(Fragment::Data(d)) if d.len() == 1));
    assert!(matches!(&next[1], PullCommand::Emit(Fragment::Finished)));
    assert!(matches!(&next[2], PullCommand::Emit(Fragment::Ready(t)) if t == "2"));
    assert!(matches!(&next[4], PullCommand::Fetch { cursor: None, .. }));
    let last = pull.on_records::<WutheringWavesGachaRecord>(None);
    assert_eq!(last.len(), 1);
    assert!(matches!(&last[0], PullCommand::Emit(Fragment::Finished)));
}
