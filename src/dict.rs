//! The item dictionaries: for each service and language, the items that
//! records name, with their canonical ids.

use vstd::prelude::*;

use crate::gacha::AccountFacet;

verus! {

/// The kind of item a dictionary entry describes.
#[derive(Debug, Clone, Copy, PartialEq, Eq, Structural)]
pub enum Category {
    Character,
    Weapon,
}

/// One item of a dictionary.
#[derive(Debug)]
pub struct GachaDictionaryEntry {
    pub lang: String,
    pub category: Category,
    pub category_name: String,
    pub item_name: String,
    pub item_id: String,
    pub rank_type: u8,
}

pub struct EntryView {
    pub lang: Seq<char>,
    pub category: Category,
    pub category_name: Seq<char>,
    pub item_name: Seq<char>,
    pub item_id: Seq<char>,
    pub rank_type: u8,
}

impl View for GachaDictionaryEntry {
    type V = EntryView;

    open spec fn view(&self) -> EntryView {
        EntryView {
            lang: self.lang@,
            category: self.category,
            category_name: self.category_name@,
            item_name: self.item_name@,
            item_id: self.item_id@,
            rank_type: self.rank_type,
        }
    }
}

/// One category of a dictionary file: its items as (name, id, rank) triples.
#[derive(Debug)]
pub struct DictionaryObject {
    pub category: Category,
    pub category_name: String,
    pub entries: Vec<(String, String, u8)>,
}

/// The entries that one category of a dictionary file of language `lang` gives.
pub open spec fn object_entries(lang: Seq<char>, o: DictionaryObject) -> Seq<EntryView> {
    o.entries@.map_values(
        |e: (String, String, u8)|
            EntryView {
                lang,
                category: o.category,
                category_name: o.category_name@,
                item_name: e.0@,
                item_id: e.1@,
                rank_type: e.2,
            },
    )
}

/// The entries of a whole dictionary file, category after category.
pub open spec fn file_entries(lang: Seq<char>, objs: Seq<DictionaryObject>) -> Seq<EntryView>
    decreases objs.len(),
{
    if objs.len() == 0 {
        Seq::empty()
    } else {
        file_entries(lang, objs.drop_last()) + object_entries(lang, objs.last())
    }
}

/// The last entry that `p` accepts.
pub open spec fn last_where(s: Seq<EntryView>, p: spec_fn(EntryView) -> bool) -> Option<EntryView>
    decreases s.len(),
{
    if s.len() == 0 {
        None
    } else if p(s.last()) {
        Some(s.last())
    } else {
        last_where(s.drop_last(), p)
    }
}

pub open spec fn named(name: Seq<char>) -> spec_fn(EntryView) -> bool {
    |e: EntryView| e.item_name == name
}

pub open spec fn with_id(id: Seq<char>) -> spec_fn(EntryView) -> bool {
    |e: EntryView| e.item_id == id
}

/// A dictionary of one service in one language; where two entries share a
/// name (or an id), the later one is the one found.
#[derive(Debug)]
pub struct GachaDictionary {
    lang: String,
    entries: Vec<GachaDictionaryEntry>,
}

pub open spec fn entry_views(v: Seq<GachaDictionaryEntry>) -> Seq<EntryView> {
    v.map_values(|e: GachaDictionaryEntry| e@)
}

impl GachaDictionary {
    /// The language of the dictionary.
    pub closed spec fn lang_view(&self) -> Seq<char> {
        self.lang@
    }

    /// The entries of the dictionary, in the order they were read.
    pub closed spec fn entries_view(&self) -> Seq<EntryView> {
        entry_views(self.entries@)
    }

    /// Every entry is of the dictionary's language.
    #[verifier::type_invariant]
    closed spec fn entries_in_lang(&self) -> bool {
        forall|i: int| 0 <= i < self.entries@.len() ==> (#[trigger] self.entries@[i]).lang@ == self.lang@
    }

    fn find_last(&self, key: &String, by_name: bool) -> (r: Option<&GachaDictionaryEntry>)
        ensures
            ({
                let p = if by_name {
                    named(key@)
                } else {
                    with_id(key@)
                };
                match r {
                    Some(e) => last_where(self.entries_view(), p) == Some(e@) && e.lang@ == self.lang_view()
                        && (by_name ==> e.item_name@ == key@) && (!by_name ==> e.item_id@ == key@),
                    None => last_where(self.entries_view(), p) is None,
                }
            }),
    {
        proof {
            use_type_invariant(self);
        }
        let entries = &self.entries;
        let ghost p = if by_name {
            named(key@)
        } else {
            with_id(key@)
        };
        let ghost s = entry_views(entries@);
        let mut i: usize = entries.len();
        assert(s.take(i as int) =~= s);
        while i > 0
            invariant
                i <= entries@.len(),
                entries@ == self.entries@,
                forall|k: int| 0 <= k < self.entries@.len() ==> (#[trigger] self.entries@[k]).lang@ == self.lang@,
                s == entry_views(entries@),
                p == (if by_name {
                    named(key@)
                } else {
                    with_id(key@)
                }),
                last_where(s, p) == last_where(s.take(i as int), p),
            decreases i,
        {
            let ghost t = s.take(i as int);
            assert(t.drop_last() =~= s.take(i - 1));
            assert(t.last() == entries@[i - 1]@);
            let e = &entries[i - 1];
            let hit = if by_name {
                e.item_name == *key
            } else {
                e.item_id == *key
            };
            if hit {
                return Some(e);
            }
            i = i - 1;
        }
        None
    }

    /// The entry of the item named `item_name`.
    pub fn name(&self, item_name: &str) -> (r: Option<&GachaDictionaryEntry>)
        ensures
            match r {
                Some(e) => last_where(self.entries_view(), named(item_name@)) == Some(e@) && e.item_name@ == item_name@ && e.lang@ == self.lang_view(),
                None => last_where(self.entries_view(), named(item_name@)) is None,
            },
    {
        self.find_last(&item_name.to_owned(), true)
    }

    /// The entry of the item with id `item_id`.
    pub fn id(&self, item_id: &str) -> (r: Option<&GachaDictionaryEntry>)
        ensures
            match r {
                Some(e) => last_where(self.entries_view(), with_id(item_id@)) == Some(e@) && e.item_id@ == item_id@ && e.lang@ == self.lang_view(),
                None => last_where(self.entries_view(), with_id(item_id@)) is None,
            },
    {
        self.find_last(&item_id.to_owned(), false)
    }
}

/// Builds the dictionary of language `lang` from the categories of its file.
pub fn read_dictionaries(lang: &str, objects: Vec<DictionaryObject>) -> (r: GachaDictionary)
    ensures
        r.lang_view() == lang@,
        r.entries_view() == file_entries(lang@, objects@),
{
    let mut entries: Vec<GachaDictionaryEntry> = Vec::new();
    let mut i: usize = 0;
    assert(objects@.take(0) =~= Seq::<DictionaryObject>::empty());
    while i < objects.len()
        invariant
            i <= objects@.len(),
            entry_views(entries@) == file_entries(lang@, objects@.take(i as int)),
            forall|k: int| 0 <= k < entries@.len() ==> (#[trigger] entries@[k]).lang@ == lang@,
        decreases objects.len() - i,
    {
        let o = &objects[i];
        let ghost head = entry_views(entries@);
        let mut j: usize = 0;
        assert(o.entries@.take(0) =~= Seq::<(String, String, u8)>::empty());
        while j < o.entries.len()
            invariant
                j <= o.entries@.len(),
                o == objects@[i as int],
                entry_views(entries@) == head + object_entries(lang@, *o).take(j as int),
                forall|k: int| 0 <= k < entries@.len() ==> (#[trigger] entries@[k]).lang@ == lang@,
            decreases o.entries.len() - j,
        {
            let (name, id, rank) = (&o.entries[j].0, &o.entries[j].1, o.entries[j].2);
            let ghost before = entry_views(entries@);
            entries.push(
                GachaDictionaryEntry {
                    lang: lang.to_owned(),
                    category: o.category,
                    category_name: o.category_name.clone(),
                    item_name: name.clone(),
                    item_id: id.clone(),
                    rank_type: rank,
                },
            );
            assert(entry_views(entries@) =~= before.push(object_entries(lang@, *o)[j as int]));
            assert(object_entries(lang@, *o).take(j + 1) =~= object_entries(lang@, *o).take(j as int).push(object_entries(lang@, *o)[j as int]));
            assert(entry_views(entries@) =~= head + object_entries(lang@, *o).take(j + 1));
            j = j + 1;
        }
        proof {
            assert(object_entries(lang@, *o).take(j as int) =~= object_entries(lang@, *o));
            assert(objects@.take(i + 1).drop_last() =~= objects@.take(i as int));
        }
        i = i + 1;
    }
    assert(objects@.take(i as int) =~= objects@);
    GachaDictionary { lang: lang.to_owned(), entries }
}

/// The dictionaries at hand, each for one service and the language it holds.
#[derive(Debug)]
pub struct Dictionaries {
    pub dictionaries: Vec<(AccountFacet, GachaDictionary)>,
}

/// The dictionary of `facet` in `lang`: the last one given for the pair.
pub open spec fn dictionary_for(d: Seq<(AccountFacet, GachaDictionary)>, facet: AccountFacet, lang: Seq<char>) -> Option<GachaDictionary>
    decreases d.len(),
{
    if d.len() == 0 {
        None
    } else if d.last().0 == facet && d.last().1.lang_view() == lang {
        Some(d.last().1)
    } else {
        dictionary_for(d.drop_last(), facet, lang)
    }
}

/// The dictionary of `facet` in `lang`.
pub fn dictionary<'a>(dicts: &'a Dictionaries, facet: AccountFacet, lang: &str) -> (r: Option<&'a GachaDictionary>)
    ensures
        match r {
            Some(g) => dictionary_for(dicts.dictionaries@, facet, lang@) == Some(*g) && g.lang_view() == lang@,
            None => dictionary_for(dicts.dictionaries@, facet, lang@) is None,
        },
{
    let l = lang.to_owned();
    let ghost s = dicts.dictionaries@;
    let mut i: usize = dicts.dictionaries.len();
    assert(s.take(i as int) =~= s);
    while i > 0
        invariant
            i <= s.len(),
            s == dicts.dictionaries@,
            l@ == lang@,
            dictionary_for(s, facet, lang@) == dictionary_for(s.take(i as int), facet, lang@),
        decreases i,
    {
        assert(s.take(i as int).drop_last() =~= s.take(i - 1));
        let d = &dicts.dictionaries[i - 1];
        if d.0 == facet && d.1.lang == l {
            return Some(&d.1);
        }
        i = i - 1;
    }
    None
}

/// The entry of the item named `item_name` in the dictionary of `facet` in `lang`.
pub fn name<'a>(dicts: &'a Dictionaries, facet: AccountFacet, lang: &str, item_name: &str) -> (r: Option<&'a GachaDictionaryEntry>)
    ensures
        match dictionary_for(dicts.dictionaries@, facet, lang@) {
            None => r is None,
            Some(g) => match r {
                Some(e) => last_where(g.entries_view(), named(item_name@)) == Some(e@),
                None => last_where(g.entries_view(), named(item_name@)) is None,
            },
        },
        r matches Some(e) ==> e.item_name@ == item_name@ && e.lang@ == lang@,
{
    match dictionary(dicts, facet, lang) {
        Some(g) => g.name(item_name),
        None => None,
    }
}

/// The entry of the item with id `item_id` in the dictionary of `facet` in `lang`.
pub fn id<'a>(dicts: &'a Dictionaries, facet: AccountFacet, lang: &str, item_id: &str) -> (r: Option<&'a GachaDictionaryEntry>)
    ensures
        match dictionary_for(dicts.dictionaries@, facet, lang@) {
            None => r is None,
            Some(g) => match r {
                Some(e) => last_where(g.entries_view(), with_id(item_id@)) == Some(e@),
                None => last_where(g.entries_view(), with_id(item_id@)) is None,
            },
        },
        r matches Some(e) ==> e.item_id@ == item_id@ && e.lang@ == lang@,
{
    match dictionary(dicts, facet, lang) {
        Some(g) => g.id(item_id),
        None => None,
    }
}

} // verus!
