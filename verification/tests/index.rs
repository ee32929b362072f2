//! Events go into an index on disk, and searches find them again.

use std::cell::RefCell;
use std::path::Path;
use std::time::{Duration, Instant};

use seshat_index::analysis::Analyzer;
use seshat_index::config::{Config, Language, SearchConfig, TextAnalysis, TokenizerMode};
use seshat_index::events::{Event, EventType};
use seshat_index::index::{Index, IndexSearcher};
use seshat_index::paging::Action;
use seshat_index::parser::Parser;
use seshat_index::query::{Occur, Query, Term};
use seshat_index::schema::{build_schema, Field};
use seshat_index::search_cache::SearchCache;
use seshat_index::search_syntax::{parse, quote, Fuzziness};
use seshat_index::writer::{Writer, TANTIVY_WRITER_HEAP_SIZE};
use tantivy::collector::{Count, MultiCollector, TopDocs};
use tantivy::schema::{IndexRecordOption, Value};
use tantivy::Order;
use tempfile::TempDir;

fn event() -> Event {
    Event {
        event_type: EventType::Message,
        content_value: "Test message".to_string(),
        event_id: "$15163622445EBvZJ:localhost".to_string(),
        sender: "@example2:localhost".to_string(),
        server_ts: 1516362244026,
        room_id: "!test_room:localhost".to_string(),
    }
}

fn topic_event() -> Event {
    Event {
        event_type: EventType::Topic,
        content_value: "Test topic".to_string(),
        event_id: "$15163622445EBvZE:localhost".to_string(),
        sender: "@example2:localhost".to_string(),
        server_ts: 1516362244038,
        room_id: "!test_room:localhost".to_string(),
    }
}

fn language(language: Language) -> Config {
    Config {
        language,
        tokenizer_mode: TokenizerMode::LanguageBased,
    }
}

fn ngrams(min_gram: usize, max_gram: usize) -> Config {
    Config {
        language: Language::Unknown,
        tokenizer_mode: TokenizerMode::Ngram { min_gram, max_gram },
    }
}

fn search_config() -> SearchConfig {
    SearchConfig {
        limit: 10,
        order_by_recency: false,
        room_id: None,
        keys: Vec::new(),
        next_batch: None,
        query_syntax: false,
    }
}

/// An index on disk.
struct Store {
    index: Index,
    engine: tantivy::Index,
    reader: tantivy::IndexReader,
    cache: RefCell<SearchCache>,
}

/// What writes to an index on disk.
struct StoreWriter {
    state: Writer,
    inner: tantivy::IndexWriter,
    commit_timestamp: Instant,
}

/// What a search found, with the score of each event.
struct Found {
    count: usize,
    results: Vec<(f32, String)>,
    next_batch: Option<u128>,
}

impl Store {
    fn open<P: AsRef<Path>>(path: P, config: &Config) -> Result<Store, String> {
        let name = config.tokenizer_mode.as_tokenizer_name(config.language);
        let dir = tantivy::directory::MmapDirectory::open(path).map_err(|e| e.to_string())?;
        let mut engine = tantivy::Index::open_or_create(dir, build_schema(&name))
            .map_err(|e| e.to_string())?;
        let reader = engine.reader().map_err(|e| e.to_string())?;
        let index = Index::new(config).map_err(|e| format!("{:?}", e))?;
        engine.set_tokenizers(index.tokenizers().clone());
        Ok(Store {
            index,
            engine,
            reader,
            cache: RefCell::new(SearchCache::new()),
        })
    }

    fn reload(&self) {
        self.reader.reload().unwrap();
    }

    fn writer(&self) -> StoreWriter {
        StoreWriter {
            state: self.index.get_writer(),
            inner: self
                .engine
                .writer_with_num_threads(1, TANTIVY_WRITER_HEAP_SIZE)
                .unwrap(),
            commit_timestamp: Instant::now(),
        }
    }

    fn search(&self, term: &str, config: &SearchConfig) -> Result<Found, String> {
        let mut cache = self.cache.borrow_mut();
        let searcher: IndexSearcher = self.index.get_searcher();
        let mut running = searcher
            .search(&mut cache, term, config)
            .map_err(|e| format!("{:?}", e))?;
        let parser = searcher.parser(&running.search_config);
        let query = lower(&parser, &running.query);
        let engine = self.reader.searcher();
        let mut ranking = Vec::new();

        loop {
            match running.page.action() {
                Action::Search { limit } => {
                    let count;
                    (count, ranking) = rank(&engine, &query, limit, running.order_by_recency);
                    running.page.found(count, ranking.len());
                }
                Action::Read { rank } => {
                    let (_, address): (f32, tantivy::DocAddress) = ranking[rank];
                    let doc: tantivy::TantivyDocument = engine.doc(address).unwrap();
                    let field = handle(Field::EventId);
                    let id = doc.get_first(field).map(|v| v.as_str().unwrap().to_owned());
                    running.page.read(id);
                }
                Action::Done => break,
            }
        }

        let result = running.finish(&mut cache);
        Ok(Found {
            count: result.count,
            results: result
                .results
                .into_iter()
                .map(|hit| (ranking[hit.rank].0, hit.event_id))
                .collect(),
            next_batch: result.next_batch,
        })
    }
}

impl StoreWriter {
    fn add_event(&mut self, event: &Event) {
        self.inner.add_document(self.state.add_event(event)).unwrap();
        self.state.event_added();
    }

    fn delete_event(&mut self, event_id: &str) {
        let term = self.state.delete_event(event_id);
        self.inner.delete_term(engine_term(&term));
    }

    fn commit(&mut self) -> bool {
        let now = self.state.commit(self.commit_timestamp.elapsed().as_nanos());
        self.commit_if(now)
    }

    fn force_commit(&mut self) {
        let now = self.state.force_commit();
        self.commit_if(now);
    }

    fn commit_if(&mut self, now: bool) -> bool {
        if now {
            self.inner.commit().unwrap();
            self.state.committed();
            self.commit_timestamp = Instant::now();
        }
        now
    }
}

fn handle(field: Field) -> tantivy::schema::Field {
    tantivy::schema::Field::from_field_id(field.id())
}

fn engine_term(term: &Term) -> tantivy::Term {
    tantivy::Term::from_field_text(handle(term.field), &term.text)
}

fn rank(
    engine: &tantivy::Searcher,
    query: &dyn tantivy::query::Query,
    limit: usize,
    order_by_recency: bool,
) -> (usize, Vec<(f32, tantivy::DocAddress)>) {
    let mut collector = MultiCollector::new();
    let count = collector.add_collector(Count);
    if order_by_recency {
        let top = collector.add_collector(
            TopDocs::with_limit(limit).order_by_u64_field(Field::Date.name(), Order::Desc),
        );
        let mut result = engine.search(query, &collector).unwrap();
        let top = top.extract(&mut result);
        (
            count.extract(&mut result),
            top.into_iter().map(|(_, address)| (1.0, address)).collect(),
        )
    } else {
        let top = collector.add_collector(TopDocs::with_limit(limit).order_by_score());
        let mut result = engine.search(query, &collector).unwrap();
        let top = top.extract(&mut result);
        (count.extract(&mut result), top)
    }
}

fn lower(parser: &Parser, query: &Query) -> Box<dyn tantivy::query::Query> {
    match query {
        Query::Empty => Box::new(tantivy::query::EmptyQuery),
        Query::All => Box::new(tantivy::query::AllQuery),
        Query::Exact(text) => parser.engine().parse_query(&quote(text)).unwrap(),
        Query::Syntax(text) => parser.engine().parse_query(text).unwrap(),
        Query::Term(term) => Box::new(tantivy::query::TermQuery::new(
            engine_term(term),
            IndexRecordOption::Basic,
        )),
        Query::Fuzzy {
            term,
            distance,
            prefix,
        } => Box::new(if *prefix {
            tantivy::query::FuzzyTermQuery::new_prefix(engine_term(term), *distance, true)
        } else {
            tantivy::query::FuzzyTermQuery::new(engine_term(term), *distance, true)
        }),
        Query::PhrasePrefix(terms) => Box::new(tantivy::query::PhrasePrefixQuery::new(
            terms.iter().map(engine_term).collect(),
        )),
        Query::Boolean(parts) => Box::new(tantivy::query::BooleanQuery::new(
            parts
                .iter()
                .map(|(occur, part)| {
                    let occur = match occur {
                        Occur::Should => tantivy::query::Occur::Should,
                        Occur::Must => tantivy::query::Occur::Must,
                        Occur::MustNot => tantivy::query::Occur::MustNot,
                    };
                    (occur, lower(parser, part))
                })
                .collect(),
        )),
    }
}

#[test]
fn add_an_event() {
    let tmpdir = TempDir::new().unwrap();
    let index = Store::open(&tmpdir, &language(Language::English)).unwrap();

    let mut writer = index.writer();

    writer.add_event(&event());
    writer.force_commit();
    index.reload();

    let result = index.search("Test", &search_config()).unwrap().results;

    let event_id = event().event_id;

    assert_eq!(result.len(), 1);
    assert_eq!(result[0].1, event_id)
}

#[test]
fn add_events_to_differing_rooms() {
    let tmpdir = TempDir::new().unwrap();
    let index = Store::open(&tmpdir, &language(Language::English)).unwrap();

    let event_id = event().event_id;
    let mut writer = index.writer();

    let mut event2 = event();
    event2.room_id = "!Test2:room".to_string();

    writer.add_event(&event());
    writer.add_event(&event2);

    writer.force_commit();
    index.reload();

    let mut config = search_config();
    config.room_id = Some(event().room_id);
    let result = index.search("Test", &config).unwrap().results;

    assert_eq!(result.len(), 1);
    assert_eq!(result[0].1, event_id);

    let result = index.search("Test", &search_config()).unwrap().results;
    assert_eq!(result.len(), 2);
}

#[test]
fn default_search_syntax() {
    let tmpdir = TempDir::new().unwrap();
    let index = Store::open(&tmpdir, &language(Language::English)).unwrap();

    let mut writer = index.writer();

    let mut event = event();
    event.content_value = "Don't miss https://example.org/a?b=c <3".to_string();
    writer.add_event(&event);
    writer.force_commit();
    index.reload();

    let finds = |term: &str| {
        let result = index.search(term, &search_config());
        assert!(result.is_ok(), "Search for {:?} failed", term);
        !result.unwrap().results.is_empty()
    };

    // Chat input is text, never a syntax error.
    for term in &[
        "don't",
        "https://example.org/a?b=c",
        "<3",
        "\"miss",
        "miss :)",
    ] {
        assert!(finds(term), "Search for {:?} didn't find the event", term);
    }

    // "NOT" is a word here, not an operator.
    assert!(!finds("miss NOT"));

    // All words have to match, unless "or" separates them.
    assert!(finds("miss don't"));
    assert!(finds("miss and don't"));
    assert!(!finds("miss nothing"));
    assert!(finds("nothing OR miss"));

    // Quotes make a phrase, a leading "-" excludes a word or phrase.
    assert!(finds("\"don't miss\""));
    assert!(!finds("\"miss don't\""));
    assert!(finds("miss -nothing"));
    assert!(!finds("miss -don't"));
    assert!(!finds("miss -\"don't miss\""));

    // Terms without anything to match find nothing.
    for term in &["-miss", "->", "-", "or", ":)", "back\\slash", "   "] {
        assert!(!finds(term), "Search for {:?} found the event", term);
    }
}

#[test]
fn query_syntax_search() {
    let tmpdir = TempDir::new().unwrap();
    let index = Store::open(&tmpdir, &language(Language::English)).unwrap();

    let mut writer = index.writer();

    let mut release = event();
    release.event_id = "$release:localhost".to_string();
    release.content_value = "We deploy the release".to_string();

    let mut party = event();
    party.event_id = "$party:localhost".to_string();
    party.content_value = "Release party tonight".to_string();
    party.sender = "@bob:example.org".to_string();

    writer.add_event(&release);
    writer.add_event(&party);
    writer.force_commit();
    index.reload();

    let query = |term: &str| {
        let mut config = search_config();
        config.query_syntax = true;
        index
            .search(term, &config)
            .map(|r| r.results.into_iter().map(|(_, id)| id).collect::<Vec<_>>())
    };

    assert_eq!(query("release tonight").unwrap(), [party.event_id.clone()]);
    assert_eq!(query("release -party").unwrap(), [release.event_id.clone()]);
    assert_eq!(
        query("\"release party\"").unwrap(),
        [party.event_id.clone()]
    );
    assert_eq!(query("\"release pa\"*").unwrap(), [party.event_id.clone()]);
    assert_eq!(
        query("sender:\"@bob:example.org\"").unwrap(),
        [party.event_id.clone()]
    );
    assert!(query("\"unclosed").is_err());

    // The default syntax has no field filters, "sender:" is text there.
    let result = index
        .search("sender:\"@bob:example.org\"", &search_config())
        .unwrap()
        .results;
    assert!(result.is_empty());
}

#[test]
fn search_term_cannot_escape_the_room_filter() {
    let tmpdir = TempDir::new().unwrap();
    let index = Store::open(&tmpdir, &language(Language::English)).unwrap();

    let mut writer = index.writer();

    let mut other_room = event();
    other_room.event_id = "$other_room_event:localhost".to_string();
    other_room.room_id = "!other:room".to_string();

    writer.add_event(&event());
    writer.add_event(&other_room);
    writer.force_commit();
    index.reload();

    let mut config = search_config();
    config.room_id = Some(event().room_id);
    config.query_syntax = true;

    // On its own, a term that closes a group it didn't open isn't a valid
    // query.
    assert!(index.search("Test) OR (body:Test", &config).is_err());

    // A valid query can't widen the room filter either.
    let result = index
        .search("Test OR room_id:\"!other:room\"", &config)
        .unwrap()
        .results;

    assert_eq!(result.len(), 1);
    assert_eq!(result[0].1, event().event_id);
}

#[test]
fn switch_languages() {
    let tmpdir = TempDir::new().unwrap();
    let index = Store::open(&tmpdir, &language(Language::English)).unwrap();

    let mut writer = index.writer();

    writer.add_event(&event());
    writer.force_commit();
    index.reload();

    let result = index.search("Test", &search_config()).unwrap().results;

    let event_id = event().event_id;

    assert_eq!(result.len(), 1);
    assert_eq!(result[0].1, event_id);

    drop(index);

    let index = Store::open(&tmpdir, &language(Language::German));

    assert!(index.is_err())
}

#[test]
fn event_count() {
    let tmpdir = TempDir::new().unwrap();
    let index = Store::open(&tmpdir, &language(Language::English)).unwrap();

    let mut writer = index.writer();

    assert_eq!(writer.state.events_pending_commit, 0);
    writer.add_event(&event());
    assert_eq!(writer.state.events_pending_commit, 1);

    writer.force_commit();
    assert_eq!(writer.state.events_pending_commit, 0);
}

#[test]
fn custom_commit_rate() {
    let tmpdir = TempDir::new().unwrap();
    let index = Store::open(&tmpdir, &language(Language::English)).unwrap();

    let mut writer = index.writer();
    writer
        .state
        .set_commit_rate(2, Duration::from_secs(3600).as_nanos());

    writer.add_event(&event());
    assert!(!writer.commit());

    writer.add_event(&topic_event());
    assert!(writer.commit());
}

#[test]
fn delete_an_event() {
    let tmpdir = TempDir::new().unwrap();
    let index = Store::open(&tmpdir, &language(Language::English)).unwrap();

    let mut writer = index.writer();

    writer.add_event(&event());
    writer.add_event(&topic_event());
    writer.force_commit();
    index.reload();

    let result = index.search("Test", &search_config()).unwrap().results;

    let event_id = &event().event_id;

    assert_eq!(result.len(), 2);
    assert_eq!(&result[0].1, event_id);

    writer.delete_event(event_id);
    writer.force_commit();
    index.reload();

    let result = index.search("Test", &search_config()).unwrap().results;
    assert_eq!(result.len(), 1);
    assert_eq!(&result[0].1, &topic_event().event_id);
}

#[test]
fn paginated_search() {
    let tmpdir = TempDir::new().unwrap();
    let index = Store::open(&tmpdir, &language(Language::English)).unwrap();

    let mut writer = index.writer();

    writer.add_event(&event());
    writer.add_event(&topic_event());
    writer.force_commit();
    index.reload();

    let mut config = search_config();
    config.limit = 1;
    let first_search = index.search("Test", &config).unwrap();

    assert_eq!(first_search.results.len(), 1);

    config.next_batch = Some(first_search.next_batch.unwrap());
    let second_search = index.search("Test", &config).unwrap();
    assert_eq!(second_search.results.len(), 1);
    assert_eq!(&first_search.results[0].1, &event().event_id);
    assert_eq!(&second_search.results[0].1, &topic_event().event_id);
    assert!(second_search.next_batch.is_none());
}

#[test]
fn ngram_tokenizer_mode() {
    let tmpdir = TempDir::new().unwrap();
    let index = Store::open(&tmpdir, &ngrams(2, 4)).unwrap();

    let mut writer = index.writer();
    writer.add_event(&event());
    writer.force_commit();
    index.reload();

    // Search with partial text (ngram should match)
    let result = index.search("est", &search_config()).unwrap().results;

    assert_eq!(result.len(), 1);
    assert_eq!(result[0].1, event().event_id);
}

#[test]
fn ngram_tokenizer_is_case_insensitive() {
    let tmpdir = TempDir::new().unwrap();
    let index = Store::open(&tmpdir, &ngrams(2, 4)).unwrap();

    let mut event = event();
    event.content_value = "Der Maschinenbau-Kurs nutzt Kubernetes".to_string();

    let mut writer = index.writer();
    writer.add_event(&event);
    writer.force_commit();
    index.reload();

    for term in &["maschine", "MASCHINE", "kubernetes", "KUBERNETES", "bernet"] {
        let result = index.search(term, &search_config()).unwrap().results;
        assert_eq!(
            result.len(),
            1,
            "Search for {:?} didn't find the event",
            term
        );
    }
}

#[test]
fn schema_mismatch_on_tokenizer_mode_change() {
    let tmpdir = TempDir::new().unwrap();

    // Create index with language-based tokenizer
    {
        let index = Store::open(&tmpdir, &language(Language::English)).unwrap();
        let mut writer = index.writer();
        writer.add_event(&event());
        writer.force_commit();
    }

    // Try to open with ngram tokenizer - should fail with schema mismatch
    {
        let result = Store::open(&tmpdir, &ngrams(2, 4));
        assert!(result.is_err());
    }
}

#[test]
fn schema_mismatch_on_ngram_size_change() {
    let tmpdir = TempDir::new().unwrap();

    // Create index with ngram tokenizer (2, 4)
    {
        let index = Store::open(&tmpdir, &ngrams(2, 4)).unwrap();
        let mut writer = index.writer();
        writer.add_event(&event());
        writer.force_commit();
    }

    // Try to open with different ngram size - should fail with schema mismatch
    {
        let result = Store::open(&tmpdir, &ngrams(3, 5));
        assert!(
            result.is_err(),
            "Different ngram sizes should cause schema mismatch"
        );
    }

    // Reopen with same ngram size - should succeed
    {
        let result = Store::open(&tmpdir, &ngrams(2, 4));
        assert!(result.is_ok(), "Same ngram sizes should work");
    }
}

#[test]
fn ngram_tokenizer_japanese() {
    let tmpdir = TempDir::new().unwrap();
    let index = Store::open(&tmpdir, &ngrams(2, 4)).unwrap();

    // Create a Japanese event
    let japanese_event = Event {
        event_type: EventType::Message,
        content_value: "トフォリゲートのことでした".to_string(),
        event_id: "$japanese_event:example.org".to_string(),
        sender: "@user:example.org".to_string(),
        server_ts: 1234567890,
        room_id: "!test:example.org".to_string(),
    };

    let mut writer = index.writer();
    writer.add_event(&japanese_event);
    writer.force_commit();
    index.reload();

    // Test 1: Full word search
    println!("Test 1: Searching for 'トフォリゲート'");
    let result = index
        .search("トフォリゲート", &search_config())
        .unwrap()
        .results;
    println!("Result count: {}", result.len());
    assert_eq!(result.len(), 1, "Full word search should match");

    // Test 2: Partial search with 4-gram (should match)
    println!("Test 2: Searching for 'トフォリ'");
    let result = index.search("トフォリ", &search_config()).unwrap().results;
    println!("Result count: {}", result.len());
    assert_eq!(
        result.len(),
        1,
        "4-gram partial search 'トフォリ' should match"
    );

    // Test 3: Partial search with 2-gram (should match)
    println!("Test 3: Searching for 'リゲ'");
    let result = index.search("リゲ", &search_config()).unwrap().results;
    println!("Result count: {}", result.len());
    assert_eq!(result.len(), 1, "2-gram partial search 'リゲ' should match");

    // Test 4: Partial search with 3-gram (should match)
    println!("Test 4: Searching for 'ゲート'");
    let result = index.search("ゲート", &search_config()).unwrap().results;
    println!("Result count: {}", result.len());
    assert_eq!(
        result.len(),
        1,
        "3-gram partial search 'ゲート' should match"
    );
}

/// Events "$0", "$1", ... that a search for "word" finds.
fn add_numbered_events(writer: &mut StoreWriter, count: usize) {
    for i in 0..count {
        let mut event = event();
        event.event_id = format!("${}", i);
        event.content_value = format!("Word number {}", i);
        event.server_ts = 1000 + i as i64;
        writer.add_event(&event);
    }
}

#[test]
fn pages_reach_every_event_once() {
    let tmpdir = TempDir::new().unwrap();
    let index = Store::open(&tmpdir, &language(Language::English)).unwrap();
    let mut writer = index.writer();
    add_numbered_events(&mut writer, 130);
    writer.force_commit();
    index.reload();

    let mut config = search_config();
    config.limit = 7;
    let mut found: Vec<String> = Vec::new();
    loop {
        let page = index.search("word", &config).unwrap();
        assert_eq!(page.count, 130);
        for (_, id) in page.results {
            assert!(!found.contains(&id), "{} is on two pages", id);
            found.push(id);
        }
        match page.next_batch {
            Some(token) => config.next_batch = Some(token),
            None => break,
        }
    }
    assert_eq!(found.len(), 130);
}

#[test]
fn newest_events_come_first() {
    let tmpdir = TempDir::new().unwrap();
    let index = Store::open(&tmpdir, &language(Language::English)).unwrap();
    let mut writer = index.writer();
    add_numbered_events(&mut writer, 5);
    writer.force_commit();
    index.reload();

    let mut config = search_config();
    config.order_by_recency = true;
    config.limit = 3;
    let page = index.search("word", &config).unwrap();
    assert_eq!(
        page.results,
        [
            (1.0, "$4".to_string()),
            (1.0, "$3".to_string()),
            (1.0, "$2".to_string())
        ]
    );
    config.next_batch = page.next_batch;
    let page = index.search("word", &config).unwrap();
    assert_eq!(
        page.results,
        [(1.0, "$1".to_string()), (1.0, "$0".to_string())]
    );
    assert!(page.next_batch.is_none());
}

#[test]
fn empty_term_finds_every_event() {
    let tmpdir = TempDir::new().unwrap();
    let index = Store::open(&tmpdir, &language(Language::English)).unwrap();
    let mut writer = index.writer();
    writer.add_event(&event());
    writer.add_event(&topic_event());
    writer.force_commit();
    index.reload();

    assert_eq!(index.search("", &search_config()).unwrap().count, 2);

    let mut config = search_config();
    config.room_id = Some("!elsewhere".to_string());
    assert_eq!(index.search("", &config).unwrap().count, 0);
}

#[test]
fn keys_choose_the_kinds_of_events() {
    let tmpdir = TempDir::new().unwrap();
    let index = Store::open(&tmpdir, &language(Language::English)).unwrap();
    let mut writer = index.writer();
    writer.add_event(&event());
    writer.add_event(&topic_event());
    writer.force_commit();
    index.reload();

    let found = |keys: Vec<EventType>| {
        let mut config = search_config();
        config.keys = keys;
        let results = index.search("test", &config).unwrap().results;
        let mut ids: Vec<String> = results.into_iter().map(|(_, id)| id).collect();
        ids.sort();
        ids
    };

    let (message, topic) = (event().event_id, topic_event().event_id);
    assert_eq!(found(vec![EventType::Message]), [message.clone()]);
    assert_eq!(found(vec![EventType::Topic]), [topic.clone()]);
    assert!(found(vec![EventType::Name]).is_empty());
    assert_eq!(
        found(vec![EventType::Name, EventType::Topic, EventType::Message]),
        [topic, message]
    );
}

#[test]
fn unfinished_and_misspelt_words_are_found() {
    let tmpdir = TempDir::new().unwrap();
    let index = Store::open(&tmpdir, &language(Language::Unknown)).unwrap();
    let mut writer = index.writer();
    let mut event = event();
    event.content_value = "Our Kubernetes cluster sends e-mails".to_string();
    writer.add_event(&event);
    writer.force_commit();
    index.reload();

    let fuzziness = Fuzziness {
        fields: vec![Field::Body, Field::Topic, Field::Name],
        normalizer: Analyzer::new(TextAnalysis::Words { limit: 40 }).unwrap(),
        prefix: true,
        typos: true,
    };
    let finds = |term: &str, fuzziness: Option<&Fuzziness>| {
        let parser = index.index.get_searcher().parser(&search_config());
        let query = parse(&parser, term, fuzziness).unwrap();
        let (count, _) = rank(
            &index.reader.searcher(),
            &lower(&parser, &query),
            1,
            false,
        );
        count == 1
    };

    // Prefixes, and words with one or two typos.
    for term in ["kube", "our clus", "kubernets", "kubrenetes", "clutser", "e-ma"] {
        assert!(finds(term, Some(&fuzziness)), "{:?}", term);
        assert!(!finds(term, None), "{:?}", term);
    }
    // No prefix of a word in the middle, no typos in short words, no typos in
    // phrases.
    for term in ["kube cluster", "uor", "k", "\"kubernets\"", "cluster -e-mails"] {
        assert!(!finds(term, Some(&fuzziness)), "{:?}", term);
    }
    // What matches exactly is found either way.
    for term in ["kubernetes cluster", "\"kubernetes cluster\"", "our -clus"] {
        assert!(finds(term, Some(&fuzziness)), "{:?}", term);
        assert!(finds(term, None), "{:?}", term);
    }
}

#[test]
fn every_form_of_exclusion_is_the_same() {
    let tmpdir = TempDir::new().unwrap();
    let index = Store::open(&tmpdir, &language(Language::English)).unwrap();
    let mut writer = index.writer();
    for (id, content) in [
        ("$1", "miss the bus"),
        ("$2", "miss the train or not"),
        ("$3", "take the bus"),
    ] {
        let mut event = event();
        event.event_id = id.to_string();
        event.content_value = content.to_string();
        writer.add_event(&event);
    }
    writer.force_commit();
    index.reload();

    let found = |term: &str| {
        let results = index.search(term, &search_config()).unwrap().results;
        let mut ids: Vec<String> = results.into_iter().map(|(_, id)| id).collect();
        ids.sort();
        ids
    };

    assert_eq!(found("miss"), ["$1", "$2"]);
    for term in [
        "miss -bus",
        "miss --bus",
        "miss - bus",
        "miss -- bus ",
        "miss -\"bus\"",
        "miss - \"bus\"",
        "miss - -\"bus",
    ] {
        assert_eq!(found(term), ["$2"], "{:?}", term);
    }
    for term in ["miss -or", "miss --or", "miss - or", "miss -\"or\""] {
        assert_eq!(found(term), ["$1"], "{:?}", term);
    }
}

#[test]
fn all_but_the_last_page_are_full() {
    let tmpdir = TempDir::new().unwrap();
    let index = Store::open(&tmpdir, &language(Language::English)).unwrap();
    let mut writer = index.writer();
    add_numbered_events(&mut writer, 12);
    writer.force_commit();
    index.reload();

    for (limit, expected) in [(5, vec![5, 5, 2]), (6, vec![6, 6]), (20, vec![12])] {
        let mut config = search_config();
        config.order_by_recency = true;
        config.limit = limit;
        let mut sizes = Vec::new();
        let mut joined = Vec::new();
        loop {
            let page = index.search("word", &config).unwrap();
            assert_eq!(page.count, 12);
            sizes.push(page.results.len());
            joined.extend(page.results);
            config.next_batch = page.next_batch;
            if config.next_batch.is_none() {
                break;
            }
        }
        assert_eq!(sizes, expected);

        config.limit = 12;
        assert_eq!(joined, index.search("word", &config).unwrap().results);
    }

    // A search without matches has one empty page.
    let page = index.search("nothing", &search_config()).unwrap();
    assert!(page.results.is_empty());
    assert!(page.next_batch.is_none());
}

#[test]
fn tokens_can_be_used_again() {
    let tmpdir = TempDir::new().unwrap();
    let index = Store::open(&tmpdir, &language(Language::English)).unwrap();
    let mut writer = index.writer();
    add_numbered_events(&mut writer, 5);
    writer.force_commit();
    index.reload();

    let mut config = search_config();
    config.limit = 2;
    config.next_batch = index.search("word", &config).unwrap().next_batch;
    let first = index.search("word", &config).unwrap();
    let second = index.search("word", &config).unwrap();
    assert_eq!(first.results, second.results);
    assert_eq!(first.count, second.count);
    assert!(first.next_batch.is_some());
    assert!(second.next_batch.is_some());
    assert_ne!(first.next_batch, second.next_batch);
}

#[test]
fn no_keys_are_all_keys() {
    let index = Index::new(&language(Language::English)).unwrap();
    let searcher = index.get_searcher();
    let mut all = search_config();
    all.keys = vec![EventType::Message, EventType::Topic, EventType::Name];
    let mut one = search_config();
    one.keys = vec![EventType::Topic];
    for term in ["", "one :) -\"two three\" or four", "<3"] {
        let expected = searcher.parse_query(term, &search_config()).unwrap();
        assert_eq!(searcher.parse_query(term, &all).unwrap(), expected);
        assert_eq!(searcher.parse_query(term, &one).unwrap(), expected);
    }
}
