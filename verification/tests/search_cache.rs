//! Searches can be continued while they are kept.

use seshat_index::config::{Config, Language, SearchConfig, TokenizerMode};
use seshat_index::index::Index;
use seshat_index::paging::{Action, Hit};
use seshat_index::query::Query;
use seshat_index::search::{RunningSearch, SearchResult};
use seshat_index::search_cache::{Search, SearchCache, SEARCH_CACHE_SIZE};

fn index() -> Index {
    Index::new(&Config {
        language: Language::Unknown,
        tokenizer_mode: TokenizerMode::LanguageBased,
    })
    .unwrap()
}

fn config(limit: usize, next_batch: Option<u128>) -> SearchConfig {
    SearchConfig {
        limit,
        order_by_recency: false,
        room_id: None,
        keys: Vec::new(),
        next_batch,
        query_syntax: false,
    }
}

fn search(term: &str) -> Search {
    Search {
        search_term: term.to_string(),
        search_config: config(7, None),
        event_ids: vec!["$a".to_string()],
    }
}

/// Read the page of a search with the given matches.
fn read(running: &mut RunningSearch, ranking: &[&str]) {
    loop {
        match running.page.action() {
            Action::Search { limit } => {
                running.page.found(ranking.len(), ranking.len().min(limit));
            }
            Action::Read { rank } => running.page.read(Some(ranking[rank].to_string())),
            Action::Done => break,
        }
    }
}

fn ids(result: &SearchResult) -> Vec<&str> {
    result.results.iter().map(|hit| hit.event_id.as_str()).collect()
}

#[test]
fn kept_searches_are_found_again() {
    let mut cache = SearchCache::new();
    assert!(cache.get(1).is_none());

    cache.insert(1, search("one"));
    cache.insert(2, search("two"));

    let found = cache.get(1).unwrap();
    assert_eq!(found.search_term, "one");
    assert_eq!(found.search_config, config(7, None));
    assert_eq!(found.event_ids, ["$a"]);
    assert_eq!(cache.get(2).unwrap().search_term, "two");
    assert!(cache.get(3).is_none());

    cache.insert(1, search("other"));
    assert_eq!(cache.get(1).unwrap().search_term, "other");
}

#[test]
fn old_searches_are_forgotten() {
    assert_eq!(SEARCH_CACHE_SIZE, 100);

    let mut cache = SearchCache::new();
    for token in 0..100 {
        cache.insert(token, search("any"));
    }

    // The first search is used again, so the second one is the oldest.
    assert!(cache.get(0).is_some());
    cache.insert(100, search("any"));

    assert!(cache.get(0).is_some());
    assert!(cache.get(1).is_none());
    for token in 2..101 {
        assert!(cache.get(token).is_some(), "Search {} is gone", token);
    }
}

#[test]
fn recent_searches_stay() {
    let mut cache = SearchCache::new();
    cache.insert(1000, search("mine"));
    for token in 0..99 {
        cache.insert(token, search("any"));
    }
    assert_eq!(cache.get(1000).unwrap().search_term, "mine");
}

#[test]
fn token_leads_to_the_next_page() {
    let index = index();
    let searcher = index.get_searcher();
    let mut cache = SearchCache::new();
    let ranking = ["$a", "$b", "$c"];

    let mut first = searcher.search(&mut cache, "word", &config(2, None)).unwrap();
    assert!(!first.order_by_recency);
    read(&mut first, &ranking);
    let result = first.finish_with(&mut cache, 42);
    assert_eq!(
        result,
        SearchResult {
            count: 3,
            results: vec![
                Hit { rank: 0, event_id: "$a".to_string() },
                Hit { rank: 1, event_id: "$b".to_string() },
            ],
            next_batch: Some(42),
        }
    );

    let kept = cache.get(42).unwrap();
    assert_eq!(kept.search_term, "word");
    assert_eq!(kept.search_config, config(2, None));
    assert_eq!(kept.event_ids, ["$a", "$b"]);

    let mut second = searcher.search(&mut cache, "word", &config(2, Some(42))).unwrap();
    read(&mut second, &ranking);
    let result = second.finish_with(&mut cache, 43);
    assert_eq!(ids(&result), ["$c"]);
    assert_eq!(result.next_batch, None);
    assert!(cache.get(43).is_none());
}

#[test]
fn next_page_keeps_the_settings_of_the_first() {
    let index = index();
    let searcher = index.get_searcher();
    let mut cache = SearchCache::new();

    let mut filtered = config(1, None);
    filtered.room_id = Some("!room".to_string());
    let mut first = searcher.search(&mut cache, "word", &filtered).unwrap();
    read(&mut first, &["$a", "$b", "$c", "$d"]);
    first.finish_with(&mut cache, 5);

    // The room comes from the first page; the number of events, their order
    // and the term don't.
    let mut newest = config(2, Some(5));
    newest.order_by_recency = true;
    let mut second = searcher.search(&mut cache, "term", &newest).unwrap();
    assert!(second.order_by_recency);
    assert_eq!(second.page.action(), Action::Search { limit: 2 });
    let expected = searcher.parse_query("term", &filtered).unwrap();
    assert_eq!(second.query, expected);
    assert_ne!(second.query, searcher.parse_query("term", &newest).unwrap());

    read(&mut second, &["$a", "$b", "$c", "$d"]);
    let result = second.finish_with(&mut cache, 6);
    assert_eq!(ids(&result), ["$b", "$c"]);

    // What is kept is the first term, and all events so far.
    let kept = cache.get(6).unwrap();
    assert_eq!(kept.search_term, "word");
    assert_eq!(kept.search_config, filtered);
    assert_eq!(kept.event_ids, ["$b", "$c", "$a"]);
}

#[test]
fn unknown_token_starts_anew() {
    let index = index();
    let searcher = index.get_searcher();
    let mut cache = SearchCache::new();

    let mut running = searcher.search(&mut cache, "", &config(1, Some(99))).unwrap();
    assert_eq!(running.query, Query::All);
    read(&mut running, &["$a", "$b"]);
    let result = running.finish_with(&mut cache, 7);
    assert_eq!(ids(&result), ["$a"]);
    assert_eq!(cache.get(7).unwrap().search_config, config(1, Some(99)));
}

#[test]
fn new_tokens_are_random_ids() {
    let index = index();
    let searcher = index.get_searcher();
    let mut cache = SearchCache::new();
    let mut tokens = Vec::new();

    for _ in 0..3 {
        let mut running = searcher.search(&mut cache, "word", &config(1, None)).unwrap();
        read(&mut running, &["$a", "$b"]);
        let token = running.finish(&mut cache).next_batch.unwrap();
        assert_eq!(uuid::Uuid::from_u128(token).get_version_num(), 4);
        assert_eq!(
            uuid::Uuid::from_u128(token).get_variant(),
            uuid::Variant::RFC4122
        );
        assert!(!tokens.contains(&token));
        assert_eq!(cache.get(token).unwrap().event_ids, ["$a"]);
        tokens.push(token);
    }
}

#[test]
fn invalid_query_starts_no_search() {
    let index = index();
    let searcher = index.get_searcher();
    let mut cache = SearchCache::new();
    let mut wrong = config(1, None);
    wrong.query_syntax = true;
    assert!(searcher.search(&mut cache, "\"unclosed", &wrong).is_err());
}
