//! The searches that can be continued.

use lru_cache::LruCache;
use uuid::Uuid;
use vstd::prelude::*;

use crate::config::SearchConfig;
use crate::config::SearchConfigView;
use crate::text::string_views;

verus! {

/// How many searches are kept, so that more pages of them can be had.
pub const SEARCH_CACHE_SIZE: usize = 100;

/// `lru_cache::LruCache`, a map that forgets what was not used for longest.
#[verifier::external_type_specification]
#[verifier::external_body]
#[verifier::reject_recursive_types(K)]
#[verifier::reject_recursive_types(V)]
#[verifier::reject_recursive_types(S)]
pub struct ExLruCache<K: Eq + std::hash::Hash, V, S: std::hash::BuildHasher>(LruCache<K, V, S>);

/// A search that some pages were read of.
pub struct Search {
    pub search_term: String,
    pub search_config: SearchConfig,
    /// The ids of the events of those pages.
    pub event_ids: Vec<String>,
}

/// A search that some pages were read of, as a value.
pub struct SearchView {
    pub search_term: Seq<char>,
    pub search_config: SearchConfigView,
    pub event_ids: Seq<Seq<char>>,
}

impl View for Search {
    type V = SearchView;

    open spec fn view(&self) -> SearchView {
        SearchView {
            search_term: self.search_term@,
            search_config: self.search_config@,
            event_ids: string_views(self.event_ids@),
        }
    }
}

/// Copy some texts.
pub(crate) fn copy_texts(texts: &Vec<String>) -> (copy: Vec<String>)
    ensures
        string_views(copy@) == string_views(texts@),
{
    let copy = texts.clone();
    assert(string_views(copy@) =~= string_views(texts@));
    copy
}

impl Clone for Search {
    fn clone(&self) -> (search: Search)
        ensures
            search@ == self@,
    {
        Search {
            search_term: self.search_term.clone(),
            search_config: self.search_config.clone(),
            event_ids: copy_texts(&self.event_ids),
        }
    }
}

/// What a cache holds, from what was not used for longest to what was used
/// last.
pub uninterp spec fn cache_entries(cache: LruCache<u128, Search>) -> Seq<(u128, SearchView)>;

/// How many entries a cache holds at most.
pub uninterp spec fn cache_capacity(cache: LruCache<u128, Search>) -> usize;

/// The search under a token.
pub open spec fn lookup(entries: Seq<(u128, SearchView)>, token: u128) -> Option<SearchView>
    decreases entries.len(),
{
    if entries.len() == 0 {
        None
    } else if entries.last().0 == token {
        Some(entries.last().1)
    } else {
        lookup(entries.drop_last(), token)
    }
}

/// The entries under other tokens.
pub open spec fn without(entries: Seq<(u128, SearchView)>, token: u128) -> Seq<(u128, SearchView)>
    decreases entries.len(),
{
    if entries.len() == 0 {
        seq![]
    } else if entries.last().0 == token {
        without(entries.drop_last(), token)
    } else {
        without(entries.drop_last(), token).push(entries.last())
    }
}

/// The entries once the search under a token was used.
pub open spec fn used(entries: Seq<(u128, SearchView)>, token: u128) -> Seq<(u128, SearchView)> {
    match lookup(entries, token) {
        Some(search) => without(entries, token).push((token, search)),
        None => entries,
    }
}

/// The entries once a search was kept under a token, where at most `capacity`
/// of them stay.
pub open spec fn kept(
    entries: Seq<(u128, SearchView)>,
    capacity: usize,
    token: u128,
    search: SearchView,
) -> Seq<(u128, SearchView)> {
    let all = without(entries, token).push((token, search));
    if all.len() > capacity {
        all.drop_first()
    } else {
        all
    }
}

/// `LruCache::new` is an empty cache of the given capacity.
#[verifier::external_body]
fn new_cache(capacity: usize) -> (cache: LruCache<u128, Search>)
    ensures
        cache_entries(cache) == Seq::<(u128, SearchView)>::empty(),
        cache_capacity(cache) == capacity,
{
    LruCache::new(capacity)
}

/// `LruCache::get_mut` finds the entry under a key, and makes it the one that
/// was used last.
#[verifier::external_body]
fn cache_get<'a>(cache: &'a mut LruCache<u128, Search>, token: u128) -> (r: Option<&'a Search>)
    ensures
        match r {
            Some(search) => lookup(cache_entries(*old(cache)), token) == Some(search@),
            None => lookup(cache_entries(*old(cache)), token) is None,
        },
        cache_entries(*final(cache)) == used(cache_entries(*old(cache)), token),
        cache_capacity(*final(cache)) == cache_capacity(*old(cache)),
{
    cache.get_mut(&token).map(|search| &*search)
}

/// `LruCache::insert` adds an entry as the one that was used last, in place of
/// the one under the same key. If there are more than the capacity, the one
/// that was not used for longest goes.
#[verifier::external_body]
fn cache_insert(cache: &mut LruCache<u128, Search>, token: u128, search: Search)
    ensures
        cache_entries(*final(cache)) == kept(
            cache_entries(*old(cache)),
            cache_capacity(*old(cache)),
            token,
            search@,
        ),
        cache_capacity(*final(cache)) == cache_capacity(*old(cache)),
{
    cache.insert(token, search);
}

/// `Uuid::new_v4` makes a random id. Its version and its variant are fixed.
#[verifier::external_body]
pub(crate) fn new_token() -> (token: u128)
    ensures
        is_random_id(token),
{
    Uuid::new_v4().as_u128()
}

/// Whether the bits of an id that tell its version and its variant are those
/// of a random id.
pub open spec fn is_random_id(token: u128) -> bool {
    &&& (token >> 76) & 0xf == 4
    &&& (token >> 62) & 3 == 2
}

/// Whether no two entries have the same token.
pub open spec fn distinct_tokens(entries: Seq<(u128, SearchView)>) -> bool {
    forall|i: int, j: int|
        0 <= i < j < entries.len() ==> (#[trigger] entries[i]).0 != (#[trigger] entries[j]).0
}

/// The searches that can be continued.
pub struct SearchCache {
    inner: LruCache<u128, Search>,
}

impl View for SearchCache {
    type V = Seq<(u128, SearchView)>;

    /// The searches with their tokens, from what was not used for longest to
    /// what was used last.
    closed spec fn view(&self) -> Seq<(u128, SearchView)> {
        cache_entries(self.inner)
    }
}

proof fn lemma_without(entries: Seq<(u128, SearchView)>, token: u128)
    ensures
        without(entries, token).len() <= entries.len(),
        lookup(entries, token) is Some ==> without(entries, token).len() < entries.len(),
        forall|i: int|
            0 <= i < without(entries, token).len() ==> (#[trigger] without(
                entries,
                token,
            )[i]).0 != token && entries.contains(without(entries, token)[i]),
        distinct_tokens(entries) ==> distinct_tokens(without(entries, token)),
        lookup(entries, token) is None ==> without(entries, token) == entries,
    decreases entries.len(),
{
    if entries.len() > 0 {
        let before = entries.drop_last();
        lemma_without(before, token);
        assert(before.push(entries.last()) =~= entries);
        let rest = without(before, token);
        let all = without(entries, token);
        assert forall|i: int| 0 <= i < all.len() implies (#[trigger] all[i]).0 != token
            && entries.contains(all[i]) by {
            if i < rest.len() {
                assert(all[i] == rest[i]);
                let j = choose|j: int| 0 <= j < before.len() && before[j] == rest[i];
                assert(entries[j] == rest[i]);
            } else {
                assert(entries[entries.len() - 1] == all[i]);
            }
        }
        if distinct_tokens(entries) {
            assert(distinct_tokens(before)) by {
                assert forall|i: int, j: int| 0 <= i < j < before.len() implies (
                #[trigger] before[i]).0 != (#[trigger] before[j]).0 by {
                    assert(entries[i].0 != entries[j].0);
                }
            }
            assert forall|i: int, j: int| 0 <= i < j < all.len() implies (#[trigger] all[i]).0 != (
            #[trigger] all[j]).0 by {
                assert(all[i] == rest[i]);
                if j < rest.len() {
                    assert(all[j] == rest[j]);
                } else {
                    let k = choose|k: int| 0 <= k < before.len() && before[k] == rest[i];
                    assert(entries[k].0 != entries[entries.len() - 1].0);
                }
            }
        }
    }
}

impl SearchCache {
    /// How many searches are kept at most.
    pub closed spec fn capacity(self) -> usize {
        cache_capacity(self.inner)
    }

    /// The searches that are kept have different tokens, and are not too many.
    pub open spec fn valid(self) -> bool {
        &&& self.capacity() == SEARCH_CACHE_SIZE
        &&& self@.len() <= SEARCH_CACHE_SIZE
        &&& distinct_tokens(self@)
    }

    /// No search can be continued yet.
    pub fn new() -> (cache: SearchCache)
        ensures
            cache.valid(),
            cache@ == Seq::<(u128, SearchView)>::empty(),
    {
        SearchCache { inner: new_cache(SEARCH_CACHE_SIZE) }
    }

    /// The search under a token.
    pub fn get(&mut self, token: u128) -> (r: Option<Search>)
        requires
            old(self).valid(),
        ensures
            final(self).valid(),
            match r {
                Some(search) => lookup(old(self)@, token) == Some(search@),
                None => lookup(old(self)@, token) is None,
            },
            final(self)@ == used(old(self)@, token),
    {
        proof {
            lemma_used_valid(self@, token);
        }
        match cache_get(&mut self.inner, token) {
            Some(search) => Some(search.clone()),
            None => None,
        }
    }

    /// Keep a search under a token.
    pub fn insert(&mut self, token: u128, search: Search)
        requires
            old(self).valid(),
        ensures
            final(self).valid(),
            final(self)@ == kept(old(self)@, SEARCH_CACHE_SIZE, token, search@),
    {
        proof {
            lemma_kept_valid(self@, SEARCH_CACHE_SIZE, token, search@);
        }
        cache_insert(&mut self.inner, token, search)
    }
}

proof fn lemma_push_distinct(entries: Seq<(u128, SearchView)>, token: u128, search: SearchView)
    requires
        distinct_tokens(entries),
    ensures
        distinct_tokens(without(entries, token).push((token, search))),
{
    lemma_without(entries, token);
    let rest = without(entries, token);
    let all = rest.push((token, search));
    assert forall|i: int, j: int| 0 <= i < j < all.len() implies (#[trigger] all[i]).0 != (
    #[trigger] all[j]).0 by {
        assert(all[i] == rest[i]);
        if j < rest.len() {
            assert(all[j] == rest[j]);
        }
    }
}

proof fn lemma_used_valid(entries: Seq<(u128, SearchView)>, token: u128)
    requires
        distinct_tokens(entries),
    ensures
        distinct_tokens(used(entries, token)),
        used(entries, token).len() <= entries.len(),
{
    lemma_without(entries, token);
    if let Some(search) = lookup(entries, token) {
        lemma_push_distinct(entries, token, search);
    }
}

proof fn lemma_kept_valid(
    entries: Seq<(u128, SearchView)>,
    capacity: usize,
    token: u128,
    search: SearchView,
)
    requires
        distinct_tokens(entries),
        entries.len() <= capacity,
    ensures
        distinct_tokens(kept(entries, capacity, token, search)),
        kept(entries, capacity, token, search).len() <= capacity,
{
    lemma_without(entries, token);
    lemma_push_distinct(entries, token, search);
    let all = without(entries, token).push((token, search));
    let rest = all.drop_first();
    assert forall|i: int, j: int| 0 <= i < j < rest.len() implies (#[trigger] rest[i]).0 != (
    #[trigger] rest[j]).0 by {
        assert(rest[i] == all[i + 1] && rest[j] == all[j + 1]);
    }
}

/// A search that was just kept is found again under its token.
pub proof fn law_kept_search_is_found(
    entries: Seq<(u128, SearchView)>,
    token: u128,
    search: SearchView,
)
    ensures
        lookup(kept(entries, SEARCH_CACHE_SIZE, token, search), token) == Some(search),
{
    let all = without(entries, token).push((token, search));
    assert(all.drop_first().len() > 0 ==> all.drop_first().last() == all.last());
}

/// What is kept under other tokens stays when one is left out.
proof fn lemma_lookup_without(entries: Seq<(u128, SearchView)>, token: u128, other: u128)
    requires
        token != other,
    ensures
        lookup(without(entries, token), other) == lookup(entries, other),
    decreases entries.len(),
{
    if entries.len() > 0 {
        let rest = without(entries.drop_last(), token);
        lemma_lookup_without(entries.drop_last(), token, other);
        assert(rest.push(entries.last()).drop_last() =~= rest);
    }
}

/// To use a token does not change what is kept, neither under this token nor
/// under another one.
pub proof fn law_using_a_token_changes_nothing(
    entries: Seq<(u128, SearchView)>,
    token: u128,
    other: u128,
)
    ensures
        lookup(used(entries, token), other) == lookup(entries, other),
{
    if let Some(search) = lookup(entries, token) {
        let rest = without(entries, token);
        assert(rest.push((token, search)).drop_last() =~= rest);
        if token != other {
            lemma_lookup_without(entries, token, other);
        }
    }
}

/// A token that was used last stays when a search is kept under another one.
pub proof fn law_used_token_stays(
    entries: Seq<(u128, SearchView)>,
    token: u128,
    other: u128,
    search: SearchView,
)
    requires
        token != other,
    ensures
        lookup(kept(used(entries, token), SEARCH_CACHE_SIZE, other, search), token) == lookup(
            entries,
            token,
        ),
{
    law_using_a_token_changes_nothing(entries, token, token);
    let now = used(entries, token);
    let rest = without(now, other);
    let all = rest.push((other, search));
    assert(all.drop_last() =~= rest);
    lemma_lookup_without(now, other, token);
    if let Some(found) = lookup(entries, token) {
        assert(rest.last() == (token, found));
        assert(lookup(rest, token) == Some(found));
        if all.len() > SEARCH_CACHE_SIZE {
            let left = all.drop_first();
            assert(left.drop_last() =~= rest.drop_first());
            assert(rest.drop_first().last() == rest.last());
            assert(lookup(left.drop_last(), token) == Some(found));
        }
    } else {
        lemma_lookup_drop_first(all, token);
    }
}

/// What is not kept does not appear when the oldest search is forgotten.
proof fn lemma_lookup_drop_first(entries: Seq<(u128, SearchView)>, token: u128)
    requires
        entries.len() > 0,
        lookup(entries, token) is None,
    ensures
        lookup(entries.drop_first(), token) is None,
    decreases entries.len(),
{
    if entries.len() > 1 {
        assert(entries.drop_first().drop_last() =~= entries.drop_last().drop_first());
        lemma_lookup_drop_first(entries.drop_last(), token);
    }
}

/// What can happen to the searches that are kept.
pub enum CacheStep {
    /// The search under this token is continued.
    Used(u128),
    /// A search is kept under this token.
    Kept(u128, SearchView),
}

/// The searches that are kept behind a step.
pub open spec fn stepped(entries: Seq<(u128, SearchView)>, step: CacheStep) -> Seq<
    (u128, SearchView),
> {
    match step {
        CacheStep::Used(token) => used(entries, token),
        CacheStep::Kept(token, search) => kept(entries, SEARCH_CACHE_SIZE, token, search),
    }
}

/// The searches that are kept behind some steps.
pub open spec fn stepped_all(entries: Seq<(u128, SearchView)>, steps: Seq<CacheStep>) -> Seq<
    (u128, SearchView),
>
    decreases steps.len(),
{
    if steps.len() == 0 {
        entries
    } else {
        stepped(stepped_all(entries, steps.drop_last()), steps.last())
    }
}

/// Whether an entry is among the last `n`, and the last one under its token.
spec fn recent(entries: Seq<(u128, SearchView)>, entry: (u128, SearchView), n: int) -> bool {
    exists|p: int| recent_at(entries, entry, n, p)
}

spec fn recent_at(
    entries: Seq<(u128, SearchView)>,
    entry: (u128, SearchView),
    n: int,
    p: int,
) -> bool {
    &&& 0 <= p < entries.len()
    &&& entries[p] == entry
    &&& entries.len() - p <= n
    &&& forall|j: int| p < j < entries.len() ==> (#[trigger] entries[j]).0 != entry.0
}

proof fn lemma_recent_found(entries: Seq<(u128, SearchView)>, entry: (u128, SearchView), n: int)
    requires
        recent(entries, entry, n),
    ensures
        lookup(entries, entry.0) == Some(entry.1),
    decreases entries.len(),
{
    let p = choose|p: int| recent_at(entries, entry, n, p);
    if p < entries.len() - 1 {
        let before = entries.drop_last();
        assert(entries[entries.len() - 1].0 != entry.0);
        assert(recent_at(before, entry, n, p)) by {
            assert forall|j: int| p < j < before.len() implies (#[trigger] before[j]).0
                != entry.0 by {
                assert(entries[j].0 != entry.0);
            }
        }
        lemma_recent_found(before, entry, n);
    }
}

/// To leave out others does not move an entry away from the end.
proof fn lemma_without_recent(
    entries: Seq<(u128, SearchView)>,
    entry: (u128, SearchView),
    n: int,
    token: u128,
)
    requires
        recent(entries, entry, n),
        token != entry.0,
    ensures
        recent(without(entries, token), entry, n),
    decreases entries.len(),
{
    let p = choose|p: int| recent_at(entries, entry, n, p);
    let before = entries.drop_last();
    let rest = without(before, token);
    if p == entries.len() - 1 {
        assert(recent_at(without(entries, token), entry, n, rest.len() as int));
    } else {
        assert(recent_at(before, entry, n - 1, p)) by {
            assert forall|j: int| p < j < before.len() implies (#[trigger] before[j]).0
                != entry.0 by {
                assert(entries[j].0 != entry.0);
            }
        }
        lemma_without_recent(before, entry, n - 1, token);
        let nearer = n - 1;
        let q = choose|q: int| recent_at(rest, entry, nearer, q);
        assert(entries[entries.len() - 1].0 != entry.0);
        assert(recent_at(without(entries, token), entry, n, q)) by {
            let all = without(entries, token);
            assert forall|j: int| q < j < all.len() implies (#[trigger] all[j]).0 != entry.0 by {
                if j < rest.len() {
                    assert(all[j] == rest[j]);
                }
            }
        }
    }
}

/// A step moves an entry away from the end by one at most.
proof fn lemma_step_recent(
    entries: Seq<(u128, SearchView)>,
    entry: (u128, SearchView),
    n: int,
    step: CacheStep,
)
    requires
        recent(entries, entry, n),
        1 <= n < SEARCH_CACHE_SIZE,
        step matches CacheStep::Kept(token, _) ==> token != entry.0,
    ensures
        recent(stepped(entries, step), entry, n + 1),
{
    lemma_recent_found(entries, entry, n);
    let after = stepped(entries, step);
    let token = match step {
        CacheStep::Used(token) => token,
        CacheStep::Kept(token, _) => token,
    };
    if token == entry.0 {
        assert(recent_at(after, entry, n + 1, after.len() - 1));
    } else if step is Used && lookup(entries, token) is None {
        let p = choose|p: int| recent_at(entries, entry, n, p);
        assert(recent_at(after, entry, n + 1, p));
    } else {
        lemma_without_recent(entries, entry, n, token);
        let rest = without(entries, token);
        let q = choose|q: int| recent_at(rest, entry, n, q);
        let search = match step {
            CacheStep::Used(_) => lookup(entries, token)->Some_0,
            CacheStep::Kept(_, search) => search,
        };
        let all = rest.push((token, search));
        assert forall|j: int| q < j < all.len() implies (#[trigger] all[j]).0 != entry.0 by {
            if j < rest.len() {
                assert(all[j] == rest[j]);
            }
        }
        assert(recent_at(all, entry, n + 1, q));
        if after.len() < all.len() {
            assert(after =~= all.drop_first());
            assert forall|j: int| q - 1 < j < after.len() implies (#[trigger] after[j]).0
                != entry.0 by {
                assert(after[j] == all[j + 1]);
            }
            assert(recent_at(after, entry, n + 1, q - 1));
        }
    }
}

proof fn lemma_steps_recent(
    entries: Seq<(u128, SearchView)>,
    entry: (u128, SearchView),
    steps: Seq<CacheStep>,
)
    requires
        recent(entries, entry, 1),
        steps.len() < SEARCH_CACHE_SIZE,
        forall|i: int|
            0 <= i < steps.len() ==> ((#[trigger] steps[i]) matches CacheStep::Kept(t, _) ==> t
                != entry.0),
    ensures
        recent(stepped_all(entries, steps), entry, steps.len() as int + 1),
    decreases steps.len(),
{
    if steps.len() > 0 {
        let before = steps.drop_last();
        assert forall|i: int| 0 <= i < before.len() implies ((
        #[trigger] before[i]) matches CacheStep::Kept(t, _) ==> t != entry.0) by {
            assert(before[i] == steps[i]);
        }
        lemma_steps_recent(entries, entry, before);
        assert(steps[steps.len() - 1] == steps.last());
        lemma_step_recent(stepped_all(entries, before), entry, steps.len() as int, steps.last());
    }
}

/// A search that was kept can be continued, as long as fewer than a hundred
/// searches were kept or continued behind it.
pub proof fn law_recent_searches_are_found(
    entries: Seq<(u128, SearchView)>,
    token: u128,
    search: SearchView,
    steps: Seq<CacheStep>,
)
    requires
        steps.len() < 100,
        forall|i: int|
            0 <= i < steps.len() ==> ((#[trigger] steps[i]) matches CacheStep::Kept(t, _) ==> t
                != token),
    ensures
        lookup(
            stepped_all(kept(entries, SEARCH_CACHE_SIZE, token, search), steps),
            token,
        ) == Some(search),
{
    let start = kept(entries, SEARCH_CACHE_SIZE, token, search);
    let all = without(entries, token).push((token, search));
    assert(start.last() == all.last());
    assert(recent_at(start, (token, search), 1, start.len() - 1));
    lemma_steps_recent(start, (token, search), steps);
    lemma_recent_found(stepped_all(start, steps), (token, search), steps.len() as int + 1);
}

/// The view of a search is the search itself, with the texts of its strings.
pub proof fn law_search_view(search: Search)
    ensures
        search@.search_term == search.search_term@,
        search@.search_config == search.search_config@,
        search@.event_ids.len() == search.event_ids@.len(),
        forall|i: int|
            0 <= i < search.event_ids@.len() ==> (#[trigger] search@.event_ids[i])
                == search.event_ids@[i]@,
{
}

/// A hundred searches can be continued at most.
pub proof fn law_kept_searches_are_few(
    entries: Seq<(u128, SearchView)>,
    token: u128,
    search: SearchView,
)
    requires
        entries.len() <= 100,
    ensures
        kept(entries, SEARCH_CACHE_SIZE, token, search).len() <= 100,
{
    lemma_without(entries, token);
}

} // verus!
