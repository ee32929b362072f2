//! Searches, page by page.

use vstd::prelude::*;

use crate::config::SearchConfig;
use crate::config::SearchConfigView;
use crate::error::Error;
use crate::index::IndexSearcher;
use crate::paging::are_the_best;
use crate::paging::block;
use crate::paging::hit_ids;
use crate::paging::hit_views;
use crate::paging::law_page_is_the_best;
use crate::paging::law_pages_follow_each_other;
use crate::paging::next_action;
use crate::paging::page_of;
use crate::paging::page_so_far;
use crate::paging::readable;
use crate::paging::Hit;
use crate::paging::HitView;
use crate::paging::PageProgress;
use crate::paging::PageSearch;
use crate::query::Query;
use crate::search_cache::is_random_id;
use crate::search_cache::kept;
use crate::search_cache::law_recent_searches_are_found;
use crate::search_cache::law_used_token_stays;
use crate::search_cache::law_using_a_token_changes_nothing;
use crate::search_cache::lookup;
use crate::search_cache::new_token;
use crate::search_cache::stepped_all;
use crate::search_cache::used;
use crate::search_cache::CacheStep;
use crate::search_cache::Search;
use crate::search_cache::SearchCache;
use crate::search_cache::SearchView;
use crate::search_cache::SEARCH_CACHE_SIZE;
use crate::text::string_views;

verus! {

/// What a search found.
#[derive(Debug, PartialEq, Eq)]
pub struct SearchResult {
    /// How many events the query matched.
    pub count: usize,
    /// The events of this page.
    pub results: Vec<Hit>,
    /// The token for the next page, unless all events were found.
    pub next_batch: Option<u128>,
}

/// A search whose page is still to be read.
pub struct RunningSearch {
    /// The query to run.
    pub query: Query,
    /// Newest events first, instead of the best matches.
    pub order_by_recency: bool,
    /// The search for the page.
    pub page: PageSearch,
    /// The term of the first page of the search.
    pub search_term: String,
    /// The settings of the first page of the search.
    pub search_config: SearchConfig,
}

/// The search that a search goes on with.
pub open spec fn past_search(
    entries: Seq<(u128, SearchView)>,
    config: SearchConfigView,
) -> Option<SearchView> {
    match config.next_batch {
        Some(token) => lookup(entries, token),
        None => None,
    }
}

/// The searches that are kept once one of them was looked for.
pub open spec fn looked_up(
    entries: Seq<(u128, SearchView)>,
    config: SearchConfigView,
) -> Seq<(u128, SearchView)> {
    match config.next_batch {
        Some(token) => used(entries, token),
        None => entries,
    }
}

/// What a search starts from, without any events yet: what it goes on with,
/// if there is such a search.
pub open spec fn started(
    past: Option<SearchView>,
    term: Seq<char>,
    config: SearchConfigView,
) -> SearchView {
    match past {
        Some(past) => past,
        None => SearchView { search_term: term, search_config: config, event_ids: seq![] },
    }
}

impl<'a> IndexSearcher<'a> {
    /// Start a search. The token of a previous page makes it go on with the
    /// settings of the search that the page belongs to, except for the number
    /// and the order of the events.
    pub fn search(&self, cache: &mut SearchCache, term: &str, config: &SearchConfig) -> (r: Result<
        RunningSearch,
        Error,
    >)
        requires
            old(cache).valid(),
        ensures
            final(cache).valid(),
            final(cache)@ == looked_up(old(cache)@, config@),
            ({
                let start = started(past_search(old(cache)@, config@), term@, config@);
                match self.query_tree(term@, start.search_config) {
                    Some(tree) => r matches Ok(running) && {
                        &&& running.query@ == tree
                        &&& running.order_by_recency == config.order_by_recency
                        &&& running.search_term@ == start.search_term
                        &&& running.search_config@ == start.search_config
                        &&& running.page.valid()
                        &&& running.page@ == (PageProgress {
                            og_limit: config.limit,
                            limit: config.limit,
                            previous: start.event_ids,
                            found: None,
                            ids: seq![],
                        })
                    },
                    None => r matches Err(e) && e is Query,
                }
            }),
            config.next_batch is None ==> final(cache)@ == old(cache)@,
            config.next_batch matches Some(token) ==> final(cache)@ == used(old(cache)@, token),
            r matches Ok(running) ==> {
                &&& running.order_by_recency == config.order_by_recency
                &&& running.page@.og_limit == config.limit
                &&& running.page@.limit == config.limit
            },
            r matches Ok(running) ==> match (if config.next_batch is Some {
                lookup(old(cache)@, config.next_batch->Some_0)
            } else {
                None
            }) {
                None => {
                    &&& running.search_term@ == term@
                    &&& running.search_config@ == config@
                    &&& running.page@.previous.len() == 0
                    &&& self.query_tree(term@, config@) == Some(running.query@)
                },
                Some(past) => {
                    &&& running.search_term@ == past.search_term
                    &&& running.search_config@ == past.search_config
                    &&& running.page@.previous == past.event_ids
                    &&& self.query_tree(term@, past.search_config) == Some(running.query@)
                },
            },
    {
        let past = match config.next_batch {
            Some(token) => cache.get(token),
            None => None,
        };
        let start = match past {
            Some(past) => past,
            None => {
                let event_ids: Vec<String> = Vec::new();
                assert(string_views(event_ids@) =~= seq![]);
                Search { search_term: term.to_owned(), search_config: config.clone(), event_ids }
            },
        };
        match self.parse_query(term, &start.search_config) {
            Ok(query) => Ok(
                RunningSearch {
                    query,
                    order_by_recency: config.order_by_recency,
                    page: PageSearch::new(config.limit, start.event_ids),
                    search_term: start.search_term,
                    search_config: start.search_config,
                },
            ),
            Err(error) => Err(error),
        }
    }
}

/// The ids of the events of a page and of the pages before it.
pub open spec fn events_so_far(progress: PageProgress) -> Seq<Seq<char>> {
    hit_ids(page_so_far(progress)) + progress.previous
}

impl RunningSearch {
    /// Whether the page is complete.
    pub open spec fn complete(self) -> bool {
        &&& self.page.valid()
        &&& self.page@.found is Some
        &&& next_action(self.page@) is Done
    }

    /// How many events the query matched.
    pub open spec fn count(self) -> usize {
        self.page@.found->Some_0.0
    }

    /// What is kept of the search, so that it can go on.
    pub open spec fn to_keep(self) -> SearchView {
        SearchView {
            search_term: self.search_term@,
            search_config: self.search_config@,
            event_ids: events_so_far(self.page@),
        }
    }

    /// Whether all events were found.
    pub open spec fn at_end(self) -> bool {
        events_so_far(self.page@).len() == self.count()
    }

    /// The result of the search without a token, and what to keep of the search
    /// if there are more events.
    fn settle(self) -> (r: (SearchResult, Option<Search>))
        requires
            self.complete(),
        ensures
            r.0.count == self.count(),
            hit_views(r.0.results@) == page_so_far(self.page@),
            r.0.next_batch is None,
            match r.1 {
                Some(search) => !self.at_end() && search@ == self.to_keep(),
                None => self.at_end(),
            },
    {
        let ghost progress = self.page@;
        let (page, previous) = self.page.finish();
        let count = page.count;
        let mut event_ids = page.event_ids;
        let mut previous = previous;
        let ghost new = string_views(event_ids@);
        event_ids.append(&mut previous);
        assert(string_views(event_ids@) =~= new + progress.previous);
        assert(string_views(event_ids@).len() == event_ids@.len());
        let search = if event_ids.len() == count {
            None
        } else {
            Some(
                Search {
                    search_term: self.search_term,
                    search_config: self.search_config,
                    event_ids,
                },
            )
        };
        (SearchResult { count, results: page.results, next_batch: None }, search)
    }

    /// The result of the search. If there are more events, the search is kept
    /// under the token.
    pub fn finish_with(self, cache: &mut SearchCache, token: u128) -> (result: SearchResult)
        requires
            self.complete(),
            old(cache).valid(),
        ensures
            final(cache).valid(),
            result.count == self.count(),
            hit_views(result.results@) == page_so_far(self.page@),
            if self.at_end() {
                result.next_batch is None && final(cache)@ == old(cache)@
            } else {
                result.next_batch == Some(token) && final(cache)@ == kept(
                    old(cache)@,
                    SEARCH_CACHE_SIZE,
                    token,
                    self.to_keep(),
                )
            },
            self.page@.found matches Some((count, _)) && result.count == count,
            result.next_batch is None <==> page_so_far(self.page@).len() + self.page@.previous.len()
                == result.count,
            result.next_batch matches Some(t) ==> final(cache)@ == kept(
                old(cache)@,
                SEARCH_CACHE_SIZE,
                t,
                SearchView {
                    search_term: self.search_term@,
                    search_config: self.search_config@,
                    event_ids: hit_ids(page_so_far(self.page@)) + self.page@.previous,
                },
            ),
    {
        let (mut result, search) = self.settle();
        if let Some(search) = search {
            cache.insert(token, search);
            result.next_batch = Some(token);
        }
        result
    }

    /// The result of the search. If there are more events, the search is kept
    /// under a new token.
    pub fn finish(self, cache: &mut SearchCache) -> (result: SearchResult)
        requires
            self.complete(),
            old(cache).valid(),
        ensures
            final(cache).valid(),
            result.count == self.count(),
            hit_views(result.results@) == page_so_far(self.page@),
            self.at_end() <==> result.next_batch is None,
            match result.next_batch {
                Some(token) => is_random_id(token) && final(cache)@ == kept(
                    old(cache)@,
                    SEARCH_CACHE_SIZE,
                    token,
                    self.to_keep(),
                ),
                None => final(cache)@ == old(cache)@,
            },
            self.page@.found matches Some((count, _)) && result.count == count,
            result.next_batch is None <==> page_so_far(self.page@).len() + self.page@.previous.len()
                == result.count,
            result.next_batch matches Some(t) ==> final(cache)@ == kept(
                old(cache)@,
                SEARCH_CACHE_SIZE,
                t,
                SearchView {
                    search_term: self.search_term@,
                    search_config: self.search_config@,
                    event_ids: hit_ids(page_so_far(self.page@)) + self.page@.previous,
                },
            ),
    {
        let (mut result, search) = self.settle();
        if let Some(search) = search {
            let token = new_token();
            cache.insert(token, search);
            result.next_batch = Some(token);
        }
        result
    }
}

/// The token of a page leads to what was kept of its search: the search goes
/// on with its settings, behind all events that were found so far, as long as
/// fewer than a hundred searches were kept or continued in between.
pub proof fn law_token_leads_on(
    entries: Seq<(u128, SearchView)>,
    token: u128,
    search: SearchView,
    steps: Seq<CacheStep>,
    term: Seq<char>,
    config: SearchConfigView,
)
    requires
        config.next_batch == Some(token),
        steps.len() < 100,
        forall|i: int|
            0 <= i < steps.len() ==> ((#[trigger] steps[i]) matches CacheStep::Kept(t, _) ==> t
                != token),
    ensures
        started(
            past_search(
                stepped_all(kept(entries, SEARCH_CACHE_SIZE, token, search), steps),
                config,
            ),
            term,
            config,
        ) == search,
{
    law_recent_searches_are_found(entries, token, search, steps);
}

/// A token can be used again: the same search behind it, even if the first one
/// was kept under another token, starts from the same events with the same
/// settings.
pub proof fn law_tokens_can_be_used_again(
    entries: Seq<(u128, SearchView)>,
    term: Seq<char>,
    config: SearchConfigView,
    new_token: u128,
    search: SearchView,
)
    requires
        config.next_batch != Some(new_token),
    ensures
        started(past_search(looked_up(entries, config), config), term, config) == started(
            past_search(entries, config),
            term,
            config,
        ),
        started(
            past_search(
                kept(looked_up(entries, config), SEARCH_CACHE_SIZE, new_token, search),
                config,
            ),
            term,
            config,
        ) == started(past_search(entries, config), term, config),
{
    if let Some(token) = config.next_batch {
        law_using_a_token_changes_nothing(entries, token, token);
        law_used_token_stays(entries, token, new_token, search);
    }
}

/// A search without a token, or with one that is not known any more, starts
/// anew.
pub proof fn law_unknown_token_starts_anew(
    entries: Seq<(u128, SearchView)>,
    term: Seq<char>,
    config: SearchConfigView,
)
    requires
        config.next_batch matches Some(token) ==> lookup(entries, token) is None,
    ensures
        started(past_search(entries, config), term, config) == (SearchView {
            search_term: term,
            search_config: config,
            event_ids: seq![],
        }),
        looked_up(entries, config) == entries,
{
}

/// Behind the best `m` matches, a page goes on with the next ones, and there
/// is no further page if and only if there are no further matches.
pub proof fn law_pages_reach_the_end(progress: PageProgress, ranking: Seq<Seq<char>>, m: int)
    requires
        ranking.no_duplicates(),
        0 <= m <= ranking.len(),
        are_the_best(progress.previous, ranking, m),
        next_action(progress) is Done,
        progress.found matches Some((count, _)) && count == ranking.len(),
        progress.ids.is_prefix_of(readable(ranking)),
    ensures
        are_the_best(
            events_so_far(progress),
            ranking,
            if ranking.len() < m + progress.og_limit {
                ranking.len() as int
            } else {
                m + progress.og_limit
            },
        ),
        events_so_far(progress).len() == ranking.len() <==> m + progress.og_limit
            >= ranking.len(),
{
    law_page_is_the_best(progress, readable(ranking));
    law_pages_follow_each_other(ranking, progress.previous, m, progress.og_limit);
}

/// Whether some searches are pages of one search with the given matches: each
/// is complete and goes on behind the events of the one before it, and there
/// is a token for every further page.
pub open spec fn are_pages(
    pages: Seq<PageProgress>,
    ranking: Seq<Seq<char>>,
    limit: usize,
) -> bool {
    &&& pages.len() > 0
    &&& forall|i: int|
        0 <= i < pages.len() ==> is_page(
            #[trigger] pages[i],
            ranking,
            limit,
            events_before(pages, i),
        )
    &&& forall|i: int|
        0 <= i < pages.len() - 1 ==> events_so_far(#[trigger] pages[i]).len() != ranking.len()
}

/// Whether a search for a page with the given matches is complete, and went on
/// behind some events.
pub open spec fn is_page(
    progress: PageProgress,
    ranking: Seq<Seq<char>>,
    limit: usize,
    previous: Seq<Seq<char>>,
) -> bool {
    &&& next_action(progress) is Done
    &&& progress.found matches Some((count, _)) && count == ranking.len()
    &&& progress.ids.is_prefix_of(readable(ranking))
    &&& progress.og_limit == limit
    &&& progress.previous == previous
}

/// The events of the pages before the one with index `i`.
pub open spec fn events_before(pages: Seq<PageProgress>, i: int) -> Seq<Seq<char>> {
    if i <= 0 {
        seq![]
    } else {
        events_so_far(pages[i - 1])
    }
}

/// The events of the first `n` pages, in the order of the pages.
pub open spec fn joined_pages(pages: Seq<PageProgress>, n: int) -> Seq<HitView>
    decreases n,
{
    if n <= 0 {
        seq![]
    } else {
        joined_pages(pages, n - 1) + page_so_far(pages[n - 1])
    }
}

proof fn lemma_first_pages(
    pages: Seq<PageProgress>,
    ranking: Seq<Seq<char>>,
    limit: usize,
    n: int,
)
    requires
        limit >= 1,
        ranking.no_duplicates(),
        are_pages(pages, ranking, limit),
        0 <= n <= pages.len(),
    ensures
        n < pages.len() ==> {
            &&& n * limit <= ranking.len()
            &&& n > 0 ==> n * limit < ranking.len()
            &&& are_the_best(events_before(pages, n), ranking, n * limit)
        },
        joined_pages(pages, n) == block(
            ranking,
            0,
            if ranking.len() < n * limit {
                ranking.len() as int
            } else {
                n * limit
            },
        ),
        n == pages.len() ==> (events_so_far(pages.last()).len() == ranking.len() <==> n * limit
            >= ranking.len()),
        forall|i: int|
            0 <= i < n && i < pages.len() - 1 ==> page_so_far(#[trigger] pages[i]).len() == limit,
    decreases n,
{
    if n == 0 {
        assert(n * limit == 0) by (nonlinear_arith)
            requires
                n == 0,
        ;
        assert(are_the_best(events_before(pages, 0), ranking, 0));
        assert(joined_pages(pages, 0) =~= block(ranking, 0, 0));
    } else {
        lemma_first_pages(pages, ranking, limit, n - 1);
        let m = (n - 1) * limit;
        let progress = pages[n - 1];
        assert(is_page(progress, ranking, limit, events_before(pages, n - 1)));
        assert(n * limit == m + limit) by (nonlinear_arith)
            requires
                m == (n - 1) * limit,
        ;
        law_page_is_the_best(progress, readable(ranking));
        law_pages_follow_each_other(ranking, progress.previous, m, limit);
        law_pages_reach_the_end(progress, ranking, m);
        let end = if ranking.len() < m + limit {
            ranking.len() as int
        } else {
            m + limit
        };
        assert(joined_pages(pages, n) =~= block(ranking, 0, end));
        if n < pages.len() {
            assert(events_so_far(progress).len() != ranking.len());
        }
    }
}

/// There are only so many pages: all of them but the last one are full, and
/// leave matches for the next one.
pub proof fn law_pages_end(pages: Seq<PageProgress>, ranking: Seq<Seq<char>>, limit: usize)
    requires
        limit >= 1,
        ranking.no_duplicates(),
        are_pages(pages, ranking, limit),
    ensures
        forall|i: int|
            0 <= i < pages.len() - 1 ==> page_so_far(#[trigger] pages[i]).len() == limit,
        pages.len() == 1 || (pages.len() - 1) * limit < ranking.len(),
{
    lemma_first_pages(pages, ranking, limit, pages.len() as int);
    lemma_first_pages(pages, ranking, limit, pages.len() - 1);
}

/// All pages of a search, up to one without a token for the next one, together
/// hold every match once, in the order in which a single search ranks them.
/// There are as many pages as that takes, and at least one.
pub proof fn law_all_pages(pages: Seq<PageProgress>, ranking: Seq<Seq<char>>, limit: usize)
    requires
        limit >= 1,
        ranking.no_duplicates(),
        are_pages(pages, ranking, limit),
        events_so_far(pages.last()).len() == ranking.len(),
    ensures
        joined_pages(pages, pages.len() as int) == block(ranking, 0, ranking.len() as int),
        joined_pages(pages, pages.len() as int) == page_of(
            readable(ranking),
            seq![],
            ranking.len() as usize,
        ),
        pages.len() == if ranking.len() == 0 {
            1
        } else {
            (ranking.len() + limit - 1) / limit as int
        },
{
    let n = pages.len() as int;
    let count = ranking.len() as int;
    lemma_first_pages(pages, ranking, limit, n);
    law_pages_end(pages, ranking, limit);
    assert(is_page(pages[0], ranking, limit, seq![]));
    law_pages_follow_each_other(ranking, seq![], 0, ranking.len() as usize);
    if count == 0 {
        assert(n == 1) by (nonlinear_arith)
            requires
                limit >= 1,
                n >= 1,
                n == 1 || (n - 1) * limit < 0,
        ;
    } else {
        assert(n == (count + limit - 1) / limit as int) by (nonlinear_arith)
            requires
                limit >= 1,
                count >= 1,
                n >= 1,
                count <= n * limit,
                n == 1 || (n - 1) * limit < count,
        ;
    }
}

/// What is kept of a search is the search as it was started, with its term and
/// all of its settings, and with the events of all pages so far.
pub proof fn law_search_is_kept_as_it_was(running: RunningSearch)
    ensures
        running.to_keep().search_term == running.search_term@,
        running.to_keep().search_config.limit == running.search_config.limit,
        running.to_keep().search_config.order_by_recency == running.search_config.order_by_recency,
        running.to_keep().search_config.room_id is Some <==> running.search_config.room_id is Some,
        running.search_config.room_id matches Some(room) ==> running.to_keep().search_config.room_id
            == Some(room@),
        running.to_keep().search_config.keys == running.search_config.keys@,
        running.to_keep().search_config.next_batch == running.search_config.next_batch,
        running.to_keep().search_config.query_syntax == running.search_config.query_syntax,
        running.to_keep().event_ids == hit_ids(page_so_far(running.page@))
            + running.page@.previous,
{
}

/// The next page asks what the first one asked: a search without a token that
/// is kept under a token goes on with its own settings, so that every term
/// gives the query that it gave on the first page.
pub proof fn law_next_page_asks_the_same(
    searcher: IndexSearcher,
    entries: Seq<(u128, SearchView)>,
    first: RunningSearch,
    term: Seq<char>,
    config: SearchConfigView,
    token: u128,
    steps: Seq<CacheStep>,
    next_term: Seq<char>,
    next_config: SearchConfigView,
)
    requires
        config.next_batch is None,
        first.search_term@ == started(past_search(entries, config), term, config).search_term,
        first.search_config@ == started(past_search(entries, config), term, config).search_config,
        next_config.next_batch == Some(token),
        steps.len() < 100,
        forall|i: int|
            0 <= i < steps.len() ==> ((#[trigger] steps[i]) matches CacheStep::Kept(t, _) ==> t
                != token),
    ensures
        ({
            let now = stepped_all(
                kept(entries, SEARCH_CACHE_SIZE, token, first.to_keep()),
                steps,
            );
            let next = started(past_search(now, next_config), next_term, next_config);
            &&& next.search_term == term
            &&& next.search_config == config
            &&& next.event_ids == hit_ids(page_so_far(first.page@)) + first.page@.previous
            &&& searcher.query_tree(next_term, next.search_config) == searcher.query_tree(
                next_term,
                config,
            )
        }),
{
    law_token_leads_on(entries, token, first.to_keep(), steps, next_term, next_config);
}

/// There is no further page if and only if the events of this page and of those
/// before it are as many as the query matched.
pub proof fn law_last_page(running: RunningSearch, count: usize, ranked: usize)
    requires
        running.page@.found == Some((count, ranked)),
    ensures
        running.count() == count,
        running.at_end() <==> page_of(
            running.page@.ids,
            running.page@.previous,
            running.page@.og_limit,
        ).len() + running.page@.previous.len() == count,
{
}

/// A search with a token that is known goes on with what was kept under it,
/// whatever its own settings are, and the token counts as used last.
pub proof fn law_known_token_goes_on(
    entries: Seq<(u128, SearchView)>,
    term: Seq<char>,
    config: SearchConfigView,
    token: u128,
    past: SearchView,
)
    requires
        config.next_batch == Some(token),
        lookup(entries, token) == Some(past),
    ensures
        started(past_search(entries, config), term, config) == past,
        looked_up(entries, config).last() == (token, past),
        lookup(looked_up(entries, config), token) == Some(past),
{
}

} // verus!
