//! The pages of a search.

use vstd::prelude::*;

use crate::text::optional_text;
use crate::text::string_views;

verus! {

/// How much wider the next search is, if there are not enough new events among
/// the best matches.
pub const SEARCH_LIMIT_INCREMENT: usize = 50;

/// An event of a page.
#[derive(Clone, Debug, PartialEq, Eq)]
pub struct Hit {
    /// The position of the event among the matches, the best one first.
    pub rank: usize,
    pub event_id: String,
}

/// An event of a page, as a value.
pub struct HitView {
    pub rank: int,
    pub event_id: Seq<char>,
}

impl View for Hit {
    type V = HitView;

    open spec fn view(&self) -> HitView {
        HitView { rank: self.rank as int, event_id: self.event_id@ }
    }
}

/// Some events, as values.
pub open spec fn hit_views(hits: Seq<Hit>) -> Seq<HitView> {
    hits.map_values(|hit: Hit| hit@)
}

/// The ids of some events.
pub open spec fn hit_ids(hits: Seq<HitView>) -> Seq<Seq<char>> {
    hits.map_values(|hit: HitView| hit.event_id)
}

/// One page of a search.
#[derive(Debug, PartialEq, Eq)]
pub struct Page {
    /// How many events the query matched.
    pub count: usize,
    /// The events of this page.
    pub results: Vec<Hit>,
    /// The ids of those events, to skip them on the next page.
    pub event_ids: Vec<String>,
}

/// What to do next for a page.
#[derive(Clone, Copy, Debug, PartialEq, Eq, Structural)]
pub enum Action {
    /// Count the matches, and rank the best `limit` of them.
    Search { limit: usize },
    /// Read the event id of the match of this rank.
    Read { rank: usize },
    /// The page is complete.
    Done,
}

/// The page that the ids of the best matches give, as far as the ids can be
/// read: the first `limit` of them that were not on a previous page.
pub open spec fn page_of(
    ids: Seq<Option<Seq<char>>>,
    previous: Seq<Seq<char>>,
    limit: usize,
) -> Seq<HitView>
    decreases ids.len(),
{
    if ids.len() == 0 {
        seq![]
    } else {
        let page = page_of(ids.drop_last(), previous, limit);
        match ids.last() {
            Some(id) if page.len() < limit && !previous.contains(id) => page.push(
                HitView { rank: ids.len() - 1, event_id: id },
            ),
            _ => page,
        }
    }
}

/// How far the search for a page got.
pub struct PageProgress {
    /// How many events the page holds at most.
    pub og_limit: usize,
    /// How many matches were ranked last.
    pub limit: usize,
    /// The ids of the events of the previous pages.
    pub previous: Seq<Seq<char>>,
    /// How many matches there are, and how many of them were ranked.
    pub found: Option<(usize, usize)>,
    /// The ids that were read of the best matches. Some cannot be read.
    pub ids: Seq<Option<Seq<char>>>,
}

/// The page so far.
pub open spec fn page_so_far(progress: PageProgress) -> Seq<HitView> {
    page_of(progress.ids, progress.previous, progress.og_limit)
}

/// What to do next. A page that isn't full yet, with matches left to look at,
/// needs a wider search.
pub open spec fn next_action(progress: PageProgress) -> Action {
    match progress.found {
        None => Action::Search { limit: progress.limit },
        Some((count, ranked)) => if page_so_far(progress).len() >= progress.og_limit {
            Action::Done
        } else if progress.ids.len() < ranked {
            Action::Read { rank: progress.ids.len() as usize }
        } else if ranked == count {
            Action::Done
        } else {
            Action::Search { limit: (progress.limit + SEARCH_LIMIT_INCREMENT) as usize }
        },
    }
}

/// The search for a page.
pub struct PageSearch {
    og_limit: usize,
    limit: usize,
    previous: Vec<String>,
    found: Option<(usize, usize)>,
    rank: usize,
    results: Vec<Hit>,
    ids: Ghost<Seq<Option<Seq<char>>>>,
}

impl View for PageSearch {
    type V = PageProgress;

    closed spec fn view(&self) -> PageProgress {
        PageProgress {
            og_limit: self.og_limit,
            limit: self.limit,
            previous: string_views(self.previous@),
            found: self.found,
            ids: self.ids@,
        }
    }
}

/// Whether a text is among some others.
fn contains(texts: &Vec<String>, text: &String) -> (found: bool)
    ensures
        found == string_views(texts@).contains(text@),
{
    let ghost views = string_views(texts@);
    let mut i: usize = 0;
    while i < texts.len()
        invariant
            i <= texts.len(),
            views == string_views(texts@),
            forall|j: int| 0 <= j < i ==> views[j] != text@,
        decreases texts.len() - i,
    {
        if texts[i] == *text {
            assert(views[i as int] == text@);
            return true;
        }
        i = i + 1;
    }
    false
}

impl PageSearch {
    /// The page so far belongs to the ids that were read, and a wider search
    /// is possible where one is needed.
    pub closed spec fn valid(self) -> bool {
        &&& self.rank == self.ids@.len()
        &&& hit_views(self.results@) == page_so_far(self@)
        &&& self.found is None ==> self.ids@.len() == 0
        &&& self.found matches Some((count, ranked)) ==> ranked == count || self.limit
            <= usize::MAX - SEARCH_LIMIT_INCREMENT
    }

    /// Start the search for a page of at most `limit` events that are not on
    /// the previous pages.
    pub fn new(limit: usize, previous: Vec<String>) -> (search: PageSearch)
        ensures
            search.valid(),
            search@ == (PageProgress {
                og_limit: limit,
                limit,
                previous: string_views(previous@),
                found: None,
                ids: seq![],
            }),
    {
        let search = PageSearch {
            og_limit: limit,
            limit,
            previous,
            found: None,
            rank: 0,
            results: Vec::new(),
            ids: Ghost(Seq::empty()),
        };
        assert(hit_views(search.results@) =~= seq![]);
        search
    }

    /// What to do next.
    pub fn action(&self) -> (action: Action)
        requires
            self.valid(),
        ensures
            action == next_action(self@),
            self@.found is None ==> action == (Action::Search { limit: self@.limit }),
            self@.found matches Some((count, ranked)) ==> {
                let page = page_of(self@.ids, self@.previous, self@.og_limit);
                let read = self@.ids.len();
                &&& action is Done <==> page.len() >= self@.og_limit || (read >= ranked && ranked
                    == count)
                &&& action is Read <==> page.len() < self@.og_limit && read < ranked
                &&& action matches Action::Read { rank } ==> rank == read
                &&& action matches Action::Search { limit } ==> limit == self@.limit + 50
            },
    {
        assert(self.results@.len() == hit_views(self.results@).len());
        match self.found {
            None => Action::Search { limit: self.limit },
            Some((count, ranked)) => {
                if self.results.len() >= self.og_limit {
                    Action::Done
                } else if self.rank < ranked {
                    Action::Read { rank: self.rank }
                } else if ranked == count {
                    Action::Done
                } else {
                    Action::Search { limit: self.limit + SEARCH_LIMIT_INCREMENT }
                }
            },
        }
    }

    /// A search was run: there are `count` matches, and the best `ranked` of
    /// them can be read.
    pub fn found(&mut self, count: usize, ranked: usize)
        requires
            old(self).valid(),
            next_action(old(self)@) matches Action::Search { limit } && (ranked == count || limit
                <= usize::MAX - SEARCH_LIMIT_INCREMENT),
        ensures
            final(self).valid(),
            final(self)@ == (PageProgress {
                limit: next_action(old(self)@)->limit,
                found: Some((count, ranked)),
                ids: seq![],
                ..old(self)@
            }),
    {
        if let Action::Search { limit } = self.action() {
            self.limit = limit;
        }
        self.found = Some((count, ranked));
        self.rank = 0;
        self.results = Vec::new();
        self.ids = Ghost(Seq::empty());
        assert(hit_views(self.results@) =~= seq![]);
    }

    /// The id of the next match was read, unless it has none or cannot be
    /// read.
    pub fn read(&mut self, event_id: Option<String>)
        requires
            old(self).valid(),
            next_action(old(self)@) is Read,
        ensures
            final(self).valid(),
            final(self)@ == (PageProgress {
                ids: old(self)@.ids.push(optional_text(event_id)),
                ..old(self)@
            }),
    {
        let ghost read = optional_text(event_id);
        let ghost before = self.ids@;
        assert(before.push(read).drop_last() =~= before);
        self.ids = Ghost(before.push(read));
        if let Some(id) = event_id {
            if !contains(&self.previous, &id) {
                let ghost page = hit_views(self.results@);
                self.results.push(Hit { rank: self.rank, event_id: id });
                assert(hit_views(self.results@) =~= page.push(
                    HitView { rank: before.len() as int, event_id: id@ },
                ));
            }
        }
        self.rank = self.rank + 1;
    }

    /// The page, and the ids of the events of the previous pages.
    pub fn finish(self) -> (r: (Page, Vec<String>))
        requires
            self.valid(),
            self@.found is Some,
            next_action(self@) is Done,
        ensures
            self@.found matches Some((count, _)) && r.0.count == count,
            hit_views(r.0.results@) == page_so_far(self@),
            string_views(r.0.event_ids@) == hit_ids(page_so_far(self@)),
            string_views(r.1@) == self@.previous,
            r.0.event_ids@.len() == r.0.results@.len(),
            forall|i: int|
                0 <= i < r.0.results@.len() ==> (#[trigger] r.0.event_ids@[i])@
                    == r.0.results@[i].event_id@,
    {
        let count = match self.found {
            Some((count, _)) => count,
            None => 0,
        };
        let event_ids = ids_of(&self.results);
        proof {
            let views = string_views(event_ids@);
            assert(views.len() == hit_ids(hit_views(self.results@)).len());
            assert forall|i: int| 0 <= i < self.results@.len() implies (#[trigger] event_ids@[i])@
                == self.results@[i].event_id@ by {
                assert(views[i] == hit_ids(hit_views(self.results@))[i]);
            }
        }
        (Page { count, results: self.results, event_ids }, self.previous)
    }
}

/// The ids of some events.
fn ids_of(hits: &Vec<Hit>) -> (ids: Vec<String>)
    ensures
        string_views(ids@) == hit_ids(hit_views(hits@)),
{
    let mut ids: Vec<String> = Vec::new();
    let mut i: usize = 0;
    while i < hits.len()
        invariant
            i <= hits.len(),
            ids.len() == i,
            forall|j: int| 0 <= j < i ==> (#[trigger] ids@[j])@ == hits@[j].event_id@,
        decreases hits.len() - i,
    {
        ids.push(hits[i].event_id.clone());
        i = i + 1;
    }
    assert(string_views(ids@) =~= hit_ids(hit_views(hits@)));
    ids
}

/// A page holds at most as many events as were asked for. None of them was on
/// a previous page, each is the match of its rank, and better matches come
/// first.
pub proof fn law_page_holds_new_matches(
    ids: Seq<Option<Seq<char>>>,
    previous: Seq<Seq<char>>,
    limit: usize,
)
    ensures
        page_of(ids, previous, limit).len() <= limit,
        forall|i: int|
            0 <= i < page_of(ids, previous, limit).len() ==> {
                let hit = #[trigger] page_of(ids, previous, limit)[i];
                &&& 0 <= hit.rank < ids.len()
                &&& ids[hit.rank] == Some(hit.event_id)
                &&& !previous.contains(hit.event_id)
            },
        forall|i: int, j: int|
            0 <= i < j < page_of(ids, previous, limit).len() ==> (#[trigger] page_of(
                ids,
                previous,
                limit,
            )[i]).rank < (#[trigger] page_of(ids, previous, limit)[j]).rank,
    decreases ids.len(),
{
    if ids.len() > 0 {
        let before = ids.drop_last();
        law_page_holds_new_matches(before, previous, limit);
        let shorter = page_of(before, previous, limit);
        let page = page_of(ids, previous, limit);
        assert forall|i: int| 0 <= i < page.len() implies {
            let hit = #[trigger] page[i];
            &&& 0 <= hit.rank < ids.len()
            &&& ids[hit.rank] == Some(hit.event_id)
            &&& !previous.contains(hit.event_id)
        } by {
            if i < shorter.len() {
                assert(page[i] == shorter[i]);
                assert(before[page[i].rank] == ids[page[i].rank]);
            }
        }
        assert forall|i: int, j: int| 0 <= i < j < page.len() implies (#[trigger] page[i]).rank < (
        #[trigger] page[j]).rank by {
            assert(page[i] == shorter[i]);
            if j < shorter.len() {
                assert(page[j] == shorter[j]);
            }
        }
    }
}

/// A full page does not change when more matches are read.
proof fn lemma_full_page(
    ranking: Seq<Option<Seq<char>>>,
    n: int,
    previous: Seq<Seq<char>>,
    limit: usize,
)
    requires
        0 <= n <= ranking.len(),
        page_of(ranking.take(n), previous, limit).len() >= limit,
    ensures
        page_of(ranking, previous, limit) == page_of(ranking.take(n), previous, limit),
    decreases ranking.len() - n,
{
    if n < ranking.len() {
        assert(ranking.take(n + 1).drop_last() =~= ranking.take(n));
        lemma_full_page(ranking, n + 1, previous, limit);
    } else {
        assert(ranking.take(n) =~= ranking);
    }
}

/// The page is the one that all matches give, whatever the number of searches
/// that it took, as long as every search ranks the matches alike.
pub proof fn law_page_is_the_best(progress: PageProgress, ranking: Seq<Option<Seq<char>>>)
    requires
        next_action(progress) is Done,
        progress.found matches Some((count, _)) && count == ranking.len(),
        progress.ids.is_prefix_of(ranking),
    ensures
        page_so_far(progress) == page_of(ranking, progress.previous, progress.og_limit),
{
    let n = progress.ids.len() as int;
    assert(ranking.take(n) =~= progress.ids);
    if page_so_far(progress).len() >= progress.og_limit {
        lemma_full_page(ranking, n, progress.previous, progress.og_limit);
    } else {
        assert(ranking.take(n) =~= ranking);
    }
}

/// A search that ranks all matches it was asked for is only followed by a
/// wider one while there are matches that it did not rank. So the page is
/// complete after finitely many searches.
pub proof fn law_wider_searches_end(progress: PageProgress)
    requires
        progress.found matches Some((count, ranked)) && ranked == if count < progress.limit {
            count
        } else {
            progress.limit
        },
        progress.limit <= usize::MAX - SEARCH_LIMIT_INCREMENT,
        next_action(progress) is Search,
    ensures
        progress.limit < next_action(progress)->limit,
        progress.limit < progress.found->Some_0.0,
{
}

/// Matches that can all be read.
pub open spec fn readable(ranking: Seq<Seq<char>>) -> Seq<Option<Seq<char>>> {
    ranking.map_values(|id: Seq<char>| Some(id))
}

/// Whether some events are the best `n` matches.
pub open spec fn are_the_best(ids: Seq<Seq<char>>, ranking: Seq<Seq<char>>, n: int) -> bool {
    &&& ids.len() == n
    &&& forall|i: int| 0 <= i < n ==> ids.contains(#[trigger] ranking[i])
    &&& forall|j: int| 0 <= j < ids.len() ==> ranking.take(n).contains(#[trigger] ids[j])
}

/// The matches of some ranks.
pub open spec fn block(ranking: Seq<Seq<char>>, from: int, to: int) -> Seq<HitView> {
    Seq::new(
        if from < to {
            (to - from) as nat
        } else {
            0
        },
        |i: int| HitView { rank: from + i, event_id: ranking[from + i] },
    )
}

proof fn lemma_next_block(
    ranking: Seq<Seq<char>>,
    previous: Seq<Seq<char>>,
    m: int,
    limit: usize,
    n: int,
)
    requires
        ranking.no_duplicates(),
        0 <= m <= ranking.len(),
        are_the_best(previous, ranking, m),
        0 <= n <= ranking.len(),
    ensures
        page_of(readable(ranking).take(n), previous, limit) == block(
            ranking,
            m,
            if n < m + limit {
                n
            } else {
                m + limit
            },
        ),
    decreases n,
{
    let all = readable(ranking);
    if n > 0 {
        lemma_next_block(ranking, previous, m, limit, n - 1);
        assert(all.take(n).drop_last() =~= all.take(n - 1));
        let id = ranking[n - 1];
        assert(all.take(n).last() == Some(id));
        if n - 1 < m {
            assert(previous.contains(ranking[n - 1]));
        } else if previous.contains(id) {
            let j = choose|j: int| 0 <= j < previous.len() && previous[j] == id;
            assert(ranking.take(m).contains(previous[j]));
            let k = choose|k: int| 0 <= k < m && ranking.take(m)[k] == id;
            assert(ranking[k] == ranking[n - 1]);
        }
        let end = if n < m + limit {
            n
        } else {
            m + limit
        };
        assert(page_of(all.take(n), previous, limit) =~= block(ranking, m, end));
    } else {
        assert(page_of(all.take(n), previous, limit) =~= block(ranking, m, n));
    }
}

/// The pages of a search walk through its matches, the best ones first,
/// without a gap and without a repetition: behind the best `m` matches, a page
/// holds the next `limit` ones, and together they are the best `m + limit`,
/// or all of them.
pub proof fn law_pages_follow_each_other(
    ranking: Seq<Seq<char>>,
    previous: Seq<Seq<char>>,
    m: int,
    limit: usize,
)
    requires
        ranking.no_duplicates(),
        0 <= m <= ranking.len(),
        are_the_best(previous, ranking, m),
    ensures
        ({
            let page = page_of(readable(ranking), previous, limit);
            let end = if ranking.len() < m + limit {
                ranking.len() as int
            } else {
                m + limit
            };
            &&& page == block(ranking, m, end)
            &&& are_the_best(hit_ids(page) + previous, ranking, end)
        }),
{
    let all = readable(ranking);
    let page = page_of(all, previous, limit);
    let end = if ranking.len() < m + limit {
        ranking.len() as int
    } else {
        m + limit
    };
    assert(all.take(ranking.len() as int) =~= all);
    lemma_next_block(ranking, previous, m, limit, ranking.len() as int);
    let ids = hit_ids(page) + previous;
    assert forall|i: int| 0 <= i < end implies ids.contains(#[trigger] ranking[i]) by {
        if i < m {
            let j = choose|j: int| 0 <= j < previous.len() && previous[j] == ranking[i];
            assert(ids[hit_ids(page).len() + j] == ranking[i]);
        } else {
            assert(hit_ids(page)[i - m] == ranking[i]);
            assert(ids[i - m] == ranking[i]);
        }
    }
    assert forall|j: int| 0 <= j < ids.len() implies ranking.take(end).contains(
        #[trigger] ids[j],
    ) by {
        if j < page.len() {
            assert(ranking.take(end)[m + j] == ids[j]);
        } else {
            assert(ids[j] == previous[j - page.len()]);
            assert(ranking.take(m).contains(previous[j - page.len()]));
            let k = choose|k: int| 0 <= k < m && ranking.take(m)[k] == ids[j];
            assert(ranking.take(end)[k] == ids[j]);
        }
    }
}

/// The view of some events is the events themselves.
pub proof fn law_hit_views(hits: Seq<Hit>, i: int)
    requires
        0 <= i < hits.len(),
    ensures
        hit_views(hits).len() == hits.len(),
        hit_views(hits)[i].rank == hits[i].rank,
        hit_views(hits)[i].event_id == hits[i].event_id@,
        hit_ids(hit_views(hits)).len() == hits.len(),
        hit_ids(hit_views(hits))[i] == hits[i].event_id@,
{
}

/// Whether the match of a rank is on a page.
pub open spec fn on_page(page: Seq<HitView>, rank: int) -> bool {
    exists|i: int| 0 <= i < page.len() && (#[trigger] page[i]).rank == rank
}

/// A page leaves out no match: one whose id can be read and that was not on a
/// previous page is on this page, unless the page is full of better ones.
pub proof fn law_page_misses_nothing(
    ids: Seq<Option<Seq<char>>>,
    previous: Seq<Seq<char>>,
    limit: usize,
    rank: int,
)
    requires
        0 <= rank < ids.len(),
        ids[rank] matches Some(id) && !previous.contains(id),
    ensures
        on_page(page_of(ids, previous, limit), rank) || (page_of(ids, previous, limit).len()
            == limit && forall|i: int|
            0 <= i < limit ==> (#[trigger] page_of(ids, previous, limit)[i]).rank < rank),
    decreases ids.len(),
{
    let before = ids.drop_last();
    let shorter = page_of(before, previous, limit);
    let page = page_of(ids, previous, limit);
    law_page_holds_new_matches(before, previous, limit);
    if rank < before.len() {
        law_page_misses_nothing(before, previous, limit, rank);
        if on_page(shorter, rank) {
            let i = choose|i: int| 0 <= i < shorter.len() && (#[trigger] shorter[i]).rank == rank;
            assert(page[i].rank == rank);
        }
    } else if shorter.len() < limit {
        assert(page[page.len() - 1].rank == rank);
    }
}

/// A page that isn't full, with matches that were not ranked, needs a search
/// that ranks 50 more.
pub proof fn law_wider_searches(progress: PageProgress)
    requires
        progress.found matches Some((count, ranked)) && ranked <= progress.ids.len() && ranked
            != count,
        page_of(progress.ids, progress.previous, progress.og_limit).len() < progress.og_limit,
        progress.limit + 50 <= usize::MAX,
    ensures
        next_action(progress) == (Action::Search { limit: (progress.limit + 50) as usize }),
{
}

/// The best matches are read one behind the other, until the page is full.
pub proof fn law_matches_are_read_in_order(progress: PageProgress)
    requires
        progress.found matches Some((count, ranked)) && progress.ids.len() < ranked,
        page_of(progress.ids, progress.previous, progress.og_limit).len() < progress.og_limit,
    ensures
        next_action(progress) matches Action::Read { rank } && rank == progress.ids.len(),
{
}

/// A full page is complete, and so is one behind the last match.
pub proof fn law_page_is_complete(progress: PageProgress)
    requires
        progress.found matches Some((count, ranked)) && (ranked == count && progress.ids.len()
            >= ranked || page_of(progress.ids, progress.previous, progress.og_limit).len()
            >= progress.og_limit),
    ensures
        next_action(progress) is Done,
{
}

/// Before anything was found, the next step is a search with the given limit.
pub proof fn law_first_search(progress: PageProgress)
    requires
        progress.found is None,
    ensures
        next_action(progress) == (Action::Search { limit: progress.limit }),
{
}

} // verus!
