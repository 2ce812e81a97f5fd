//! The pull of a whole draw history: the decisions between page fetches,
//! as commands for the caller to carry out in order.

use vstd::prelude::*;

use crate::records::GachaRecord;
use crate::text::{bytes_lt, less_than, reversed, utf8_of};

verus! {

/// One piece of progress reported to the consumer of a pull.
#[derive(Debug)]
pub enum GachaRecordFetcherChannelFragment<T> {
    /// The pull pauses to spare the service.
    Sleeping,
    /// The pull of a category starts.
    Ready(String),
    /// A page is about to be fetched.
    Pagination(u32),
    /// Records not seen before.
    Data(Vec<T>),
    /// The pull of a category is over.
    Finished,
}

/// The fragments of a pull from a full-history service have the same shape.
pub type KuroGachaRecordFetcherChannelFragment<T> = GachaRecordFetcherChannelFragment<T>;

pub enum FragmentView<T> {
    Sleeping,
    Ready(Seq<char>),
    Pagination(u32),
    Data(Seq<T>),
    Finished,
}

impl<T> View for GachaRecordFetcherChannelFragment<T> {
    type V = FragmentView<T>;

    open spec fn view(&self) -> FragmentView<T> {
        match self {
            GachaRecordFetcherChannelFragment::Sleeping => FragmentView::Sleeping,
            GachaRecordFetcherChannelFragment::Ready(s) => FragmentView::Ready(s@),
            GachaRecordFetcherChannelFragment::Pagination(n) => FragmentView::Pagination(*n),
            GachaRecordFetcherChannelFragment::Data(v) => FragmentView::Data(v@),
            GachaRecordFetcherChannelFragment::Finished => FragmentView::Finished,
        }
    }
}

/// One thing for the caller of a pull to do.
#[derive(Debug)]
pub enum PullCommand<T> {
    /// Hand this fragment to the consumer; a failure to do so ends the pull.
    Emit(GachaRecordFetcherChannelFragment<T>),
    /// Pause for [`SLEEP_SECONDS`].
    Sleep,
    /// Fetch the records of category `gacha_type` after `cursor`, and report them.
    Fetch { gacha_type: String, cursor: Option<String> },
}

pub enum CommandView<T> {
    Emit(FragmentView<T>),
    Sleep,
    Fetch { gacha_type: Seq<char>, cursor: Option<Seq<char>> },
}

pub open spec fn opt_view(o: Option<String>) -> Option<Seq<char>> {
    match o {
        Some(s) => Some(s@),
        None => None,
    }
}

impl<T> View for PullCommand<T> {
    type V = CommandView<T>;

    open spec fn view(&self) -> CommandView<T> {
        match self {
            PullCommand::Emit(f) => CommandView::Emit(f@),
            PullCommand::Sleep => CommandView::Sleep,
            PullCommand::Fetch { gacha_type, cursor } => CommandView::Fetch {
                gacha_type: gacha_type@,
                cursor: opt_view(*cursor),
            },
        }
    }
}

pub open spec fn commands_view<T>(v: Seq<PullCommand<T>>) -> Seq<CommandView<T>> {
    v.map_values(|c: PullCommand<T>| c@)
}

pub open spec fn categories_view(v: Seq<(String, Option<String>)>) -> Seq<(Seq<char>, Option<Seq<char>>)> {
    v.map_values(|p: (String, Option<String>)| (p.0@, opt_view(p.1)))
}

/// Length of every pause, in seconds.
pub const SLEEP_SECONDS: u64 = 3;

/// Every this many pages, the pull pauses before fetching.
pub const PAGES_PER_PAUSE: u32 = 5;

/// The cursor of a category's first page.
pub open spec fn first_cursor() -> Seq<char> {
    seq!['0']
}

/// The commands that fetch page `page` of category `gt` after `end_id`.
pub open spec fn page_commands<T>(gt: Seq<char>, end_id: Seq<char>, page: u32) -> Seq<CommandView<T>> {
    (if page % PAGES_PER_PAUSE == 0 {
        seq![CommandView::Emit(FragmentView::Sleeping), CommandView::Sleep]
    } else {
        Seq::empty()
    }) + seq![
        CommandView::Emit(FragmentView::Pagination(page)),
        CommandView::Fetch { gacha_type: gt, cursor: Some(end_id) },
    ]
}

/// The commands that open the pull of category `gt`.
pub open spec fn category_start<T>(gt: Seq<char>) -> Seq<CommandView<T>> {
    seq![CommandView::Emit(FragmentView::Ready(gt)), CommandView::Sleep] + page_commands(gt, first_cursor(), 1)
}

/// The commands that open category `i`, if there is one.
pub open spec fn next_category<T>(cats: Seq<(Seq<char>, Option<Seq<char>>)>, i: int) -> Seq<CommandView<T>> {
    if 0 <= i < cats.len() {
        category_start(cats[i].0)
    } else {
        Seq::empty()
    }
}

/// A record is kept when there is no resume cursor, or its id sorts after it.
pub open spec fn keeps<T: GachaRecord>(cursor: Option<Seq<char>>) -> spec_fn(T) -> bool {
    |r: T| match cursor {
        Some(c) => bytes_lt(utf8_of(c), utf8_of(r.record_id())),
        None => true,
    }
}

/// Every record that the commands hand to the consumer sorts after `c`.
pub open spec fn all_data_after<T: GachaRecord>(cmds: Seq<CommandView<T>>, c: Seq<char>) -> bool {
    forall|k: int, j: int|
        0 <= k < cmds.len() && 0 <= j < data_of(cmds[k]).len()
            ==> bytes_lt(utf8_of(c), utf8_of(#[trigger] data_of(cmds[k])[j].record_id()))
}

/// The records that a command hands to the consumer.
pub open spec fn data_of<T>(c: CommandView<T>) -> Seq<T> {
    match c {
        CommandView::Emit(FragmentView::Data(d)) => d,
        _ => Seq::empty(),
    }
}

/// The records after `cursor`, in their order.
pub fn keep_after<T: GachaRecord>(cursor: &Option<String>, records: Vec<T>) -> (r: Vec<T>)
    ensures
        r@ == records@.filter(keeps::<T>(opt_view(*cursor))),
{
    let ghost all = records@;
    let ghost pred = keeps::<T>(opt_view(*cursor));
    assert(all.len() == records.len());
    let mut rest = reversed(records);
    let mut kept: Vec<T> = Vec::new();
    let mut i: usize = 0;
    assert(all.take(0) =~= Seq::<T>::empty());
    while rest.len() > 0
        invariant
            i + rest@.len() == all.len(),
            all.len() <= usize::MAX,
            rest@ == all.subrange(i as int, all.len() as int).reverse(),
            kept@ == all.take(i as int).filter(pred),
            pred == keeps::<T>(opt_view(*cursor)),
        decreases rest.len(),
    {
        let ghost before = rest@;
        let x = rest.pop().unwrap();
        proof {
            assert(rest@ =~= before.drop_last());
            assert(x == all[i as int]);
            assert(rest@ =~= all.subrange(i + 1, all.len() as int).reverse());
            assert(all.take(i + 1) =~= all.take(i as int).push(x));
            all.take(i as int).lemma_filter_push(x, pred);
        }
        let keep = match cursor {
            Some(c) => less_than(c.as_str().as_bytes(), x.id().as_bytes()),
            None => true,
        };
        if keep {
            kept.push(x);
        }
        i = i + 1;
    }
    assert(all.take(i as int) =~= all);
    kept
}

fn push_command<T>(out: &mut Vec<PullCommand<T>>, c: PullCommand<T>)
    ensures
        commands_view(final(out)@) == commands_view(old(out)@).push(c@),
{
    out.push(c);
    assert(commands_view(out@) =~= commands_view(old(out)@).push(c@));
}

fn push_page<T>(out: &mut Vec<PullCommand<T>>, gt: &String, end_id: &String, page: u32)
    ensures
        commands_view(final(out)@) == commands_view(old(out)@) + page_commands::<T>(gt@, end_id@, page),
{
    if page % PAGES_PER_PAUSE == 0 {
        push_command(out, PullCommand::Emit(GachaRecordFetcherChannelFragment::Sleeping));
        push_command(out, PullCommand::Sleep);
    }
    push_command(out, PullCommand::Emit(GachaRecordFetcherChannelFragment::Pagination(page)));
    push_command(out, PullCommand::Fetch { gacha_type: gt.clone(), cursor: Some(end_id.clone()) });
    assert(commands_view(out@) =~= commands_view(old(out)@) + page_commands::<T>(gt@, end_id@, page));
}

fn first_cursor_string() -> (r: String)
    ensures
        r@ == first_cursor(),
{
    proof {
        reveal_strlit("0");
    }
    "0".to_owned()
}

/// The pull of every category of an account from a cursor-paginated service,
/// one category after another, in the order given.
pub struct GachaRecordPull {
    /// Each category with the id of the newest record already held, if any.
    pub categories: Vec<(String, Option<String>)>,
    /// Index of the category being pulled.
    pub current: usize,
    /// The id of the last record of the last page fetched.
    pub end_id: String,
    /// Number of the page being fetched.
    pub pagination: u32,
}

impl GachaRecordPull {
    /// Starts the pull; the commands open the first category.
    pub fn start<T>(categories: Vec<(String, Option<String>)>) -> (r: (GachaRecordPull, Vec<PullCommand<T>>))
        ensures
            r.0.categories == categories,
            r.0.current == 0,
            r.0.end_id@ == first_cursor(),
            r.0.pagination == 1,
            commands_view(r.1@) == next_category::<T>(categories_view(categories@), 0),
    {
        let mut out: Vec<PullCommand<T>> = Vec::new();
        let pull = GachaRecordPull { categories, current: 0, end_id: first_cursor_string(), pagination: 1 };
        pull.open_current(&mut out);
        assert(commands_view(out@) =~= next_category::<T>(categories_view(pull.categories@), 0));
        (pull, out)
    }

    fn open_current<T>(&self, out: &mut Vec<PullCommand<T>>)
        requires
            self.end_id@ == first_cursor(),
            self.pagination == 1,
        ensures
            commands_view(final(out)@) == commands_view(old(out)@) + next_category::<T>(categories_view(self.categories@), self.current as int),
    {
        if self.current < self.categories.len() {
            let gt = &self.categories[self.current].0;
            assert(categories_view(self.categories@)[self.current as int].0 == gt@);
            push_command(out, PullCommand::Emit(GachaRecordFetcherChannelFragment::Ready(gt.clone())));
            push_command(out, PullCommand::Sleep);
            push_page(out, gt, &self.end_id, self.pagination);
        }
        assert(commands_view(out@) =~= commands_view(old(out)@) + next_category::<T>(categories_view(self.categories@), self.current as int));
    }

    fn finish_current<T>(&mut self, out: &mut Vec<PullCommand<T>>)
        requires
            old(self).current < old(self).categories@.len(),
        ensures
            final(self).categories == old(self).categories,
            final(self).current == old(self).current + 1,
            final(self).end_id@ == first_cursor(),
            final(self).pagination == 1,
            commands_view(final(out)@) == commands_view(old(out)@) + seq![CommandView::Emit(FragmentView::<T>::Finished)] + next_category::<T>(categories_view(old(self).categories@), old(self).current + 1),
    {
        push_command(out, PullCommand::Emit(GachaRecordFetcherChannelFragment::Finished));
        assert(self.current < self.categories.len());
        self.current = self.current + 1;
        self.end_id = first_cursor_string();
        self.pagination = 1;
        let ghost mid = commands_view(out@);
        self.open_current(out);
        assert(commands_view(out@) =~= commands_view(old(out)@) + seq![CommandView::Emit(FragmentView::<T>::Finished)] + next_category::<T>(categories_view(old(self).categories@), old(self).current + 1));
    }

    /// Takes the page fetched for the current category. An empty or missing
    /// page ends the category. Otherwise the records after the category's
    /// resume cursor are handed on; if some record was not after it (the
    /// history is caught up), or no further page can be numbered, the
    /// category ends, else the next page is fetched after the page's last id.
    pub fn on_page<T: GachaRecord>(&mut self, page: Option<Vec<T>>) -> (r: Vec<PullCommand<T>>)
        requires
            old(self).current < old(self).categories@.len(),
        ensures
            final(self).categories == old(self).categories,
            ({
                let cats = categories_view(old(self).categories@);
                let i = old(self).current as int;
                let gt = cats[i].0;
                let cursor = cats[i].1;
                if page matches Some(recs) && recs@.len() > 0 {
                    let data = page->Some_0@.filter(keeps::<T>(cursor));
                    let recs = page->Some_0@;
                    if data.len() < recs.len() || old(self).pagination == u32::MAX {
                        &&& commands_view(r@) == seq![CommandView::Emit(FragmentView::Data(data)), CommandView::Emit(FragmentView::Finished)] + next_category::<T>(cats, i + 1)
                        &&& final(self).current == i + 1
                        &&& final(self).end_id@ == first_cursor()
                        &&& final(self).pagination == 1
                    } else {
                        &&& commands_view(r@) == seq![CommandView::Emit(FragmentView::Data(data)), CommandView::Sleep] + page_commands::<T>(gt, recs.last().record_id(), (old(self).pagination + 1) as u32)
                        &&& final(self).current == i
                        &&& final(self).end_id@ == recs.last().record_id()
                        &&& final(self).pagination == old(self).pagination + 1
                    }
                } else {
                    &&& commands_view(r@) == seq![CommandView::Emit(FragmentView::<T>::Finished)] + next_category::<T>(cats, i + 1)
                    &&& final(self).current == i + 1
                    &&& final(self).end_id@ == first_cursor()
                    &&& final(self).pagination == 1
                }
            }),
            categories_view(old(self).categories@)[old(self).current as int].1 matches Some(c) ==> all_data_after(commands_view(r@), c),
    {
        let ghost cats = categories_view(self.categories@);
        let ghost i = self.current as int;
        assert(cats[i] == (self.categories@[i].0@, opt_view(self.categories@[i].1)));
        let mut out: Vec<PullCommand<T>> = Vec::new();
        let records = match page {
            Some(v) => v,
            None => Vec::new(),
        };
        if records.len() == 0 {
            self.finish_current(&mut out);
            assert(commands_view(out@) =~= seq![CommandView::Emit(FragmentView::<T>::Finished)] + next_category::<T>(cats, i + 1));
            return out;
        }
        let ghost recs = records@;
        let last_id = records[records.len() - 1].id().to_owned();
        let n = records.len();
        let data = keep_after(&self.categories[self.current].1, records);
        let ghost data_v = data@;
        let dropped = data.len() < n;
        push_command(&mut out, PullCommand::Emit(GachaRecordFetcherChannelFragment::Data(data)));
        if dropped || self.pagination == u32::MAX {
            self.finish_current(&mut out);
            assert(commands_view(out@) =~= seq![CommandView::Emit(FragmentView::Data(data_v)), CommandView::Emit(FragmentView::Finished)] + next_category::<T>(cats, i + 1));
        } else {
            push_command(&mut out, PullCommand::Sleep);
            self.pagination = self.pagination + 1;
            self.end_id = last_id;
            let gt = &self.categories[self.current].0;
            push_page(&mut out, gt, &self.end_id, self.pagination);
            assert(commands_view(out@) =~= seq![CommandView::Emit(FragmentView::Data(data_v)), CommandView::Sleep] + page_commands::<T>(cats[i].0, recs.last().record_id(), self.pagination));
        }
        proof {
            if cats[i].1 is Some {
                let c = cats[i].1->Some_0;
                let cmds = commands_view(out@);
                assert forall|k: int, j: int|
                    0 <= k < cmds.len() && 0 <= j < data_of(cmds[k]).len()
                        implies bytes_lt(utf8_of(c), utf8_of(#[trigger] data_of(cmds[k])[j].record_id())) by {
                    assert(data_of(cmds[k]) == data_v);
                    recs.lemma_filter_pred(keeps::<T>(cats[i].1), j);
                }
            }
        }
        out
    }
}

/// The commands that open category `i` of a full-history pull, if there is one.
pub open spec fn next_full_category<T>(cats: Seq<(Seq<char>, Option<Seq<char>>)>, i: int) -> Seq<CommandView<T>> {
    if 0 <= i < cats.len() {
        seq![
            CommandView::Emit(FragmentView::Ready(cats[i].0)),
            CommandView::Sleep,
            CommandView::Fetch { gacha_type: cats[i].0, cursor: cats[i].1 },
        ]
    } else {
        Seq::empty()
    }
}

/// The pull of every category of an account from a service that returns a
/// category's whole history at once, one category after another.
pub struct KuroGachaRecordPull {
    /// Each category with the time of the newest record already held, if any.
    pub categories: Vec<(String, Option<String>)>,
    /// Index of the category being pulled.
    pub current: usize,
}

impl KuroGachaRecordPull {
    fn open_current<T>(&self, out: &mut Vec<PullCommand<T>>)
        ensures
            commands_view(final(out)@) == commands_view(old(out)@) + next_full_category::<T>(categories_view(self.categories@), self.current as int),
    {
        if self.current < self.categories.len() {
            let (gt, last) = (&self.categories[self.current].0, &self.categories[self.current].1);
            assert(categories_view(self.categories@)[self.current as int] == (gt@, opt_view(*last)));
            push_command(out, PullCommand::Emit(GachaRecordFetcherChannelFragment::Ready(gt.clone())));
            push_command(out, PullCommand::Sleep);
            let cursor = match last {
                Some(t) => Some(t.clone()),
                None => None,
            };
            push_command(out, PullCommand::Fetch { gacha_type: gt.clone(), cursor });
        }
        assert(commands_view(out@) =~= commands_view(old(out)@) + next_full_category::<T>(categories_view(self.categories@), self.current as int));
    }

    /// Starts the pull; the commands open the first category.
    pub fn start<T>(categories: Vec<(String, Option<String>)>) -> (r: (KuroGachaRecordPull, Vec<PullCommand<T>>))
        ensures
            r.0.categories == categories,
            r.0.current == 0,
            commands_view(r.1@) == next_full_category::<T>(categories_view(categories@), 0),
    {
        let mut out: Vec<PullCommand<T>> = Vec::new();
        let pull = KuroGachaRecordPull { categories, current: 0 };
        pull.open_current(&mut out);
        assert(commands_view(out@) =~= next_full_category::<T>(categories_view(pull.categories@), 0));
        (pull, out)
    }

    /// Takes the records fetched for the current category: they are handed
    /// on, if there are any, and the category ends.
    pub fn on_records<T>(&mut self, records: Option<Vec<T>>) -> (r: Vec<PullCommand<T>>)
        requires
            old(self).current < old(self).categories@.len(),
        ensures
            final(self).categories == old(self).categories,
            final(self).current == old(self).current + 1,
            commands_view(r@) == match records {
                Some(v) => seq![CommandView::Emit(FragmentView::Data(v@))],
                None => Seq::<CommandView<T>>::empty(),
            } + seq![CommandView::Emit(FragmentView::<T>::Finished)] + next_full_category::<T>(categories_view(old(self).categories@), old(self).current + 1),
    {
        let mut out: Vec<PullCommand<T>> = Vec::new();
        let ghost head = if records is Some {
            seq![CommandView::Emit(FragmentView::Data(records->Some_0@))]
        } else {
            Seq::<CommandView<T>>::empty()
        };
        match records {
            Some(v) => push_command(&mut out, PullCommand::Emit(GachaRecordFetcherChannelFragment::Data(v))),
            None => {},
        }
        assert(commands_view(out@) =~= head);
        push_command(&mut out, PullCommand::Emit(GachaRecordFetcherChannelFragment::Finished));
        assert(self.current < self.categories.len());
        self.current = self.current + 1;
        self.open_current(&mut out);
        assert(commands_view(out@) =~= head + seq![CommandView::Emit(FragmentView::<T>::Finished)] + next_full_category::<T>(categories_view(old(self).categories@), old(self).current + 1));
        out
    }
}

} // verus!
