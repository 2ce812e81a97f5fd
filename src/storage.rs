//! The stored form of the second game's draw records.

use vstd::prelude::*;

use crate::records::WutheringWavesGachaRecord;

verus! {

/// A stored draw of the second game: a row of its records table.
#[derive(Debug, PartialEq, Eq)]
pub struct Model {
    pub id: String,
    pub uid: String,
    pub gacha_type: String,
    pub card_pool_type: String,
    pub resource_id: i32,
    pub quality_level: i32,
    pub resource_type: String,
    pub name: String,
    pub count: i32,
    pub time: String,
}

/// The text of an optional field, empty when absent.
pub open spec fn or_empty(o: Option<String>) -> Seq<char> {
    match o {
        Some(s) => s@,
        None => Seq::empty(),
    }
}

fn or_default(o: Option<String>) -> (r: String)
    ensures
        r@ == or_empty(o),
{
    match o {
        Some(s) => s,
        None => String::new(),
    }
}

impl Model {
    /// The row that stores `value`; an absent id, account or category is stored empty.
    pub fn from_record(value: WutheringWavesGachaRecord) -> (r: Model)
        ensures
            r.id@ == or_empty(value.id),
            r.uid@ == or_empty(value.uid),
            r.gacha_type@ == or_empty(value.gacha_type),
            r.card_pool_type == value.card_pool_type,
            r.resource_id == value.resource_id,
            r.quality_level == value.quality_level,
            r.resource_type == value.resource_type,
            r.name == value.name,
            r.count == value.count,
            r.time == value.time,
    {
        Model {
            id: or_default(value.id),
            uid: or_default(value.uid),
            gacha_type: or_default(value.gacha_type),
            card_pool_type: value.card_pool_type,
            resource_id: value.resource_id,
            quality_level: value.quality_level,
            resource_type: value.resource_type,
            name: value.name,
            count: value.count,
            time: value.time,
        }
    }
}

impl WutheringWavesGachaRecord {
    /// The record that a row stores.
    pub fn from_model(value: Model) -> (r: WutheringWavesGachaRecord)
        ensures
            r.id == Some(value.id),
            r.uid == Some(value.uid),
            r.gacha_type == Some(value.gacha_type),
            r.card_pool_type == value.card_pool_type,
            r.resource_id == value.resource_id,
            r.quality_level == value.quality_level,
            r.resource_type == value.resource_type,
            r.name == value.name,
            r.count == value.count,
            r.time == value.time,
    {
        WutheringWavesGachaRecord {
            id: Some(value.id),
            uid: Some(value.uid),
            gacha_type: Some(value.gacha_type),
            card_pool_type: value.card_pool_type,
            resource_id: value.resource_id,
            quality_level: value.quality_level,
            resource_type: value.resource_type,
            name: value.name,
            count: value.count,
            time: value.time,
        }
    }
}

} // verus!
