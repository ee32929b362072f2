//! The settings of an index decide about its fields and its tokenizer.

use seshat_index::config::{Config, Language, TokenizerMode};
use seshat_index::document::event_document;
use seshat_index::events::{Event, EventType};
use seshat_index::index::Index;
use seshat_index::schema::{build_schema, Field};
use tantivy::schema::{FieldType, IndexRecordOption, Value};

const ALL_FIELDS: [Field; 7] = [
    Field::Body,
    Field::Topic,
    Field::Name,
    Field::Date,
    Field::Sender,
    Field::RoomId,
    Field::EventId,
];

fn name(mode: TokenizerMode, language: Language) -> String {
    mode.as_tokenizer_name(language)
}

#[test]
fn tokenizers_have_names() {
    let words = TokenizerMode::LanguageBased;
    assert_eq!(name(words, Language::Unknown), "default");
    assert_eq!(name(words, Language::English), "seshat_english");
    let ngrams = TokenizerMode::Ngram {
        min_gram: 2,
        max_gram: 10,
    };
    assert_eq!(name(ngrams, Language::English), "seshat_ngram_2_10");
    assert_eq!(name(ngrams, Language::Unknown), "seshat_ngram_2_10");
    let largest = TokenizerMode::Ngram {
        min_gram: 0,
        max_gram: usize::MAX,
    };
    assert_eq!(
        name(largest, Language::Unknown),
        format!("seshat_ngram_0_{}", usize::MAX)
    );
}

#[test]
fn different_tokenizers_have_different_names() {
    let languages = [
        Language::Arabic,
        Language::Danish,
        Language::Dutch,
        Language::English,
        Language::Finnish,
        Language::French,
        Language::German,
        Language::Greek,
        Language::Hungarian,
        Language::Italian,
        Language::Norwegian,
        Language::Portuguese,
        Language::Romanian,
        Language::Russian,
        Language::Spanish,
        Language::Swedish,
        Language::Tamil,
        Language::Turkish,
        Language::Unknown,
    ];
    let mut names: Vec<String> = languages
        .iter()
        .map(|language| name(TokenizerMode::LanguageBased, *language))
        .collect();
    for (min_gram, max_gram) in [(1, 11), (11, 1), (1, 1), (2, 4)] {
        let mode = TokenizerMode::Ngram { min_gram, max_gram };
        names.push(name(mode, Language::Unknown));
    }
    for (i, a) in names.iter().enumerate() {
        for b in &names[i + 1..] {
            assert_ne!(a, b);
        }
    }
}

#[test]
fn schema_declares_the_fields() {
    let schema = build_schema("some_tokenizer");
    assert_eq!(schema.fields().count(), 7);

    for field in ALL_FIELDS {
        let handle = schema.get_field(field.name()).unwrap();
        assert_eq!(handle.field_id(), field.id());
        let entry = schema.get_field_entry(handle);
        match (field, entry.field_type()) {
            (Field::Body | Field::Topic | Field::Name, FieldType::Str(options)) => {
                let indexing = options.get_indexing_options().unwrap();
                assert_eq!(indexing.tokenizer(), "some_tokenizer");
                assert_eq!(
                    indexing.index_option(),
                    IndexRecordOption::WithFreqsAndPositions
                );
                assert!(!options.is_stored());
            }
            (Field::Date, FieldType::U64(options)) => {
                assert!(options.is_fast());
                assert!(!options.is_stored());
                assert!(!options.is_indexed());
            }
            (Field::Sender, FieldType::Str(options)) => {
                assert_eq!(options.get_indexing_options().unwrap().tokenizer(), "raw");
                assert!(!options.is_stored());
            }
            (Field::RoomId | Field::EventId, FieldType::Str(options)) => {
                assert_eq!(options.get_indexing_options().unwrap().tokenizer(), "raw");
                assert!(options.is_stored());
            }
            _ => panic!("Wrong type for {:?}", field),
        }
    }
}

#[test]
fn index_knows_its_tokenizer() {
    for (language, tokenizer_mode, expected) in [
        (Language::Unknown, TokenizerMode::LanguageBased, vec!["running"]),
        (Language::English, TokenizerMode::LanguageBased, vec!["run"]),
        (
            Language::English,
            TokenizerMode::Ngram {
                min_gram: 6,
                max_gram: 7,
            },
            vec!["runnin", "running", "unning"],
        ),
    ] {
        let index = Index::new(&Config {
            language,
            tokenizer_mode,
        })
        .unwrap();
        let mut analyzer = index
            .tokenizers()
            .get(&tokenizer_mode.as_tokenizer_name(language))
            .unwrap();
        let mut tokens = Vec::new();
        let mut stream = analyzer.token_stream("Running");
        while stream.advance() {
            tokens.push(stream.token().text.clone());
        }
        assert_eq!(tokens, expected);

        // The default tokenizer is always known.
        let mut analyzer = index.tokenizers().get("default").unwrap();
        let mut stream = analyzer.token_stream("Running");
        assert!(stream.advance());
        assert_eq!(stream.token().text, "running");
        assert_eq!(index.schema().fields().count(), 7);
    }
}

#[test]
fn documents_hold_the_event() {
    for (event_type, field) in [
        (EventType::Message, Field::Body),
        (EventType::Topic, Field::Topic),
        (EventType::Name, Field::Name),
    ] {
        let doc = event_document(&Event {
            event_type,
            content_value: "content".to_string(),
            event_id: "$id".to_string(),
            sender: "@sender".to_string(),
            server_ts: 12,
            room_id: "!room".to_string(),
        });
        let text = |field: Field| {
            doc.get_first(tantivy::schema::Field::from_field_id(field.id()))
                .map(|value| value.as_str().unwrap().to_string())
        };
        assert_eq!(text(field), Some("content".to_string()));
        assert_eq!(text(Field::EventId), Some("$id".to_string()));
        assert_eq!(text(Field::Sender), Some("@sender".to_string()));
        assert_eq!(text(Field::RoomId), Some("!room".to_string()));
        let date = tantivy::schema::Field::from_field_id(Field::Date.id());
        assert_eq!(doc.get_first(date).unwrap().as_u64(), Some(12));
        assert_eq!(doc.field_values().count(), 5);
    }
}

#[test]
fn dates_before_the_epoch_are_the_largest() {
    let doc = event_document(&Event {
        event_type: EventType::Message,
        content_value: String::new(),
        event_id: String::new(),
        sender: String::new(),
        server_ts: -1,
        room_id: String::new(),
    });
    let date = tantivy::schema::Field::from_field_id(Field::Date.id());
    assert_eq!(doc.get_first(date).unwrap().as_u64(), Some(u64::MAX));
}
