//! The draw records of each service.

use vstd::prelude::*;

verus! {

/// A draw record; its id orders records of one category chronologically.
pub trait GachaRecord {
    spec fn record_id(&self) -> Seq<char>;

    fn id(&self) -> (r: &str)
        ensures
            r@ == self.record_id(),
    ;
}

/// The record service of the first game (cursor-paginated API).
#[derive(Debug, Clone, Copy, Default)]
pub struct GenshinGacha;

/// One draw of the first game, as the service returns it.
#[derive(Debug, PartialEq, Eq)]
pub struct GenshinGachaRecord {
    pub id: String,
    pub uid: String,
    pub gacha_type: String,
    pub item_id: String,
    pub count: String,
    pub time: String,
    pub name: String,
    pub lang: String,
    pub item_type: String,
    pub rank_type: String,
}

impl GachaRecord for GenshinGachaRecord {
    open spec fn record_id(&self) -> Seq<char> {
        self.id@
    }

    fn id(&self) -> (r: &str) {
        self.id.as_str()
    }
}

impl Clone for GenshinGachaRecord {
    fn clone(&self) -> (r: GenshinGachaRecord)
        ensures
            r == *self,
    {
        GenshinGachaRecord {
            id: self.id.clone(),
            uid: self.uid.clone(),
            gacha_type: self.gacha_type.clone(),
            item_id: self.item_id.clone(),
            count: self.count.clone(),
            time: self.time.clone(),
            name: self.name.clone(),
            lang: self.lang.clone(),
            item_type: self.item_type.clone(),
            rank_type: self.rank_type.clone(),
        }
    }
}

/// The record service of the second game (full history per category).
#[derive(Debug, Clone, Copy, Default)]
pub struct WutheringWavesGacha;

/// One draw of the second game. The service leaves out the id, the account
/// and the category; the library fills in the last two.
#[derive(Debug, PartialEq, Eq)]
pub struct WutheringWavesGachaRecord {
    pub id: Option<String>,
    pub uid: Option<String>,
    pub gacha_type: Option<String>,
    pub card_pool_type: String,
    pub resource_id: i32,
    pub quality_level: i32,
    pub resource_type: String,
    pub name: String,
    pub count: i32,
    pub time: String,
}

impl GachaRecord for WutheringWavesGachaRecord {
    /// A record without an id has the empty id.
    open spec fn record_id(&self) -> Seq<char> {
        match self.id {
            Some(s) => s@,
            None => Seq::empty(),
        }
    }

    fn id(&self) -> (r: &str) {
        match &self.id {
            Some(s) => s.as_str(),
            None => {
                proof {
                    reveal_strlit("");
                }
                ""
            },
        }
    }
}

fn clone_opt(s: &Option<String>) -> (r: Option<String>)
    ensures
        r == *s,
{
    match s {
        Some(v) => Some(v.clone()),
        None => None,
    }
}

impl Clone for WutheringWavesGachaRecord {
    fn clone(&self) -> (r: WutheringWavesGachaRecord)
        ensures
            r == *self,
    {
        WutheringWavesGachaRecord {
            id: clone_opt(&self.id),
            uid: clone_opt(&self.uid),
            gacha_type: clone_opt(&self.gacha_type),
            card_pool_type: self.card_pool_type.clone(),
            resource_id: self.resource_id,
            quality_level: self.quality_level,
            resource_type: self.resource_type.clone(),
            name: self.name.clone(),
            count: self.count,
            time: self.time.clone(),
        }
    }
}

} // verus!
