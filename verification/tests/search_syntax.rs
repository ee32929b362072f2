//! Search terms become queries.

use seshat_index::analysis::Analyzer;
use seshat_index::config::{
    Config, Language, SearchConfig, TextAnalysis, TokenizerMode, WORD_BYTE_LIMIT,
};
use seshat_index::error::Error;
use seshat_index::events::EventType;
use seshat_index::grammar::{read, scan, Clause, Item};
use seshat_index::index::Index;
use seshat_index::query::{Occur, Query, Term};
use seshat_index::schema::Field;
use seshat_index::search_syntax::{
    exact_query, parse, quote, typo_distance, word_query, Fuzziness,
};

fn index() -> Index {
    Index::new(&Config {
        language: Language::Unknown,
        tokenizer_mode: TokenizerMode::LanguageBased,
    })
    .unwrap()
}

fn search_config() -> SearchConfig {
    SearchConfig {
        limit: 10,
        order_by_recency: false,
        room_id: None,
        keys: Vec::new(),
        next_batch: None,
        query_syntax: false,
    }
}

fn fuzziness(prefix: bool, typos: bool) -> Fuzziness {
    Fuzziness {
        fields: vec![Field::Body, Field::Topic],
        normalizer: Analyzer::new(TextAnalysis::Words {
            limit: WORD_BYTE_LIMIT,
        })
        .unwrap(),
        prefix,
        typos,
    }
}

fn exact(text: &str) -> Query {
    Query::Exact(text.to_string())
}

fn term(field: Field, text: &str) -> Term {
    Term {
        field,
        text: text.to_string(),
    }
}

fn fuzzy(field: Field, text: &str, distance: u8, prefix: bool) -> (Occur, Query) {
    (
        Occur::Should,
        Query::Fuzzy {
            term: term(field, text),
            distance,
            prefix,
        },
    )
}

fn plain(term: &str) -> Query {
    let index = index();
    index
        .get_searcher()
        .parse_query(term, &search_config())
        .unwrap()
}

fn while_typing(term: &str, fuzziness: &Fuzziness) -> Query {
    let index = index();
    let parser = index.get_searcher().parser(&search_config());
    parse(&parser, term, Some(fuzziness)).unwrap()
}

fn word(text: &str, exclude: bool, last: bool) -> Clause {
    Clause {
        text: text.to_string(),
        exclude,
        word: Some(last),
    }
}

fn phrase(text: &str, exclude: bool) -> Clause {
    Clause {
        text: text.to_string(),
        exclude,
        word: None,
    }
}

#[test]
fn longer_words_may_have_more_typos() {
    for (word, distance) in [
        ("", 0),
        ("word", 0),
        ("wörd", 0),
        ("words", 1),
        ("eightchr", 1),
        ("ninechars", 2),
        ("a very long word", 2),
    ] {
        assert_eq!(typo_distance(word), distance, "Typos of {:?}", word);
    }
}

#[test]
fn quotes_double_backslashes() {
    assert_eq!(quote(""), "\"\"");
    assert_eq!(quote("don't"), "\"don't\"");
    assert_eq!(quote("back\\slash"), "\"back\\\\slash\"");
}

#[test]
fn whitespace_is_the_unicode_property() {
    for c in '\0'..=char::MAX {
        let listed = matches!(
            c,
            '\u{9}'..='\u{d}'
                | ' '
                | '\u{85}'
                | '\u{a0}'
                | '\u{1680}'
                | '\u{2000}'..='\u{200a}'
                | '\u{2028}'
                | '\u{2029}'
                | '\u{202f}'
                | '\u{205f}'
                | '\u{3000}'
        );
        assert_eq!(c.is_whitespace(), listed, "{:?}", c);
    }
}

#[test]
fn terms_split_at_quotes_and_whitespace() {
    let item = |text: &str, last: bool| Item::Word {
        text: text.to_string(),
        last,
    };
    assert_eq!(scan(""), []);
    assert_eq!(scan("a\u{a0}bc"), [item("a", false), item("bc", true)]);
    assert_eq!(scan("a bc "), [item("a", false), item("bc", false)]);
    assert_eq!(
        scan("a\"b c\"d"),
        [
            item("a", false),
            Item::Phrase("b c".to_string()),
            item("d", true)
        ]
    );
    assert_eq!(
        scan("a \"b"),
        [item("a", false), Item::Phrase("b".to_string())]
    );
}

#[test]
fn words_and_phrases_are_clauses() {
    assert_eq!(read(""), [[]]);
    assert_eq!(
        read("one \"two three\" -four"),
        [[
            word("one", false, false),
            phrase("two three", false),
            word("four", true, true)
        ]]
    );
}

#[test]
fn or_separates_and_and_is_optional() {
    assert_eq!(
        read("a OR b and c Or d"),
        [
            vec![word("a", false, false)],
            vec![word("b", false, false), word("c", false, false)],
            vec![word("d", false, true)],
        ]
    );
    // In quotes, both are text.
    assert_eq!(read("\"or\""), [[phrase("or", false)]]);
    // Behind a dash, too.
    assert_eq!(
        read("-or - and"),
        [[word("or", true, false), word("and", true, true)]]
    );
}

#[test]
fn dash_excludes_what_comes_next() {
    assert_eq!(
        read("-\"a b\" --c - d e"),
        [[
            phrase("a b", true),
            word("c", true, false),
            word("d", true, false),
            word("e", false, true)
        ]]
    );
    assert_eq!(read("- -"), [[]]);
    // A dash inside of a word is text.
    assert_eq!(read("a-b"), [[word("a-b", false, true)]]);
}

#[test]
fn unclosed_quote_is_closed_by_the_end() {
    assert_eq!(read("a \"b or c"), read("a \"b or c\""));
    assert_eq!(
        read("a \"b or c"),
        [[word("a", false, false), phrase("b or c", false)]]
    );
}

#[test]
fn terms_combine_to_queries() {
    assert_eq!(plain(""), Query::All);
    assert_eq!(plain("   "), Query::Empty);
    assert_eq!(plain(":)"), Query::Empty);
    assert_eq!(
        plain("one -two"),
        Query::Boolean(vec![
            (Occur::Must, exact("one")),
            (Occur::MustNot, exact("two"))
        ])
    );
    assert_eq!(
        plain("one or :) or two :)"),
        Query::Boolean(vec![
            (
                Occur::Should,
                Query::Boolean(vec![(Occur::Must, exact("one"))])
            ),
            (
                Occur::Should,
                Query::Boolean(vec![(Occur::Must, exact("two"))])
            ),
        ])
    );
}

#[test]
fn room_filter_is_a_query() {
    let index = index();
    let mut config = search_config();
    config.room_id = Some("!room".to_string());
    let filter = |query: Query| {
        Query::Boolean(vec![
            (Occur::Must, Query::Term(term(Field::RoomId, "!room"))),
            (Occur::Must, query),
        ])
    };

    let searcher = index.get_searcher();
    assert_eq!(
        searcher.parse_query("", &config).unwrap(),
        filter(Query::All)
    );
    assert_eq!(
        searcher.parse_query("one", &config).unwrap(),
        filter(Query::Boolean(vec![(Occur::Must, exact("one"))]))
    );

    config.query_syntax = true;
    assert_eq!(
        searcher.parse_query("a OR b", &config).unwrap(),
        filter(Query::Syntax("a OR b".to_string()))
    );
}

#[test]
fn query_language_can_be_wrong() {
    let index = index();
    let searcher = index.get_searcher();
    let mut config = search_config();
    config.query_syntax = true;
    assert!(matches!(
        searcher.parse_query("a) OR (b", &config),
        Err(Error::Query(_))
    ));
    assert!(matches!(
        searcher.parse_query("unknown_field:a", &config),
        Err(Error::Query(_))
    ));
    assert!(searcher.parse_query("body:a", &config).is_ok());

    // The default syntax is never wrong.
    config.query_syntax = false;
    for term in ["a) OR (b", "unknown_field:a", "\"", "\\", "[a TO", "*", "^2"] {
        assert!(searcher.parse_query(term, &config).is_ok(), "{:?}", term);
    }
}

#[test]
fn text_without_tokens_is_nothing_to_match() {
    let index = index();
    let mut config = search_config();
    config.keys = vec![EventType::Topic];
    let parser = index.get_searcher().parser(&config);
    assert_eq!(exact_query(&parser, "Word").unwrap(), Some(exact("Word")));
    assert_eq!(exact_query(&parser, "e-mail").unwrap(), Some(exact("e-mail")));
    assert_eq!(exact_query(&parser, "\\").unwrap(), None);
    assert_eq!(exact_query(&parser, ":)").unwrap(), None);
    // Too long for the index.
    assert_eq!(exact_query(&parser, &"x".repeat(40)).unwrap(), None);
    assert!(exact_query(&parser, &"x".repeat(39)).unwrap().is_some());
}

#[test]
fn parser_tells_whether_there_is_anything_to_match() {
    let index = index();
    let parser = index.get_searcher().parser(&search_config());
    assert!(parser.parse("word").unwrap());
    assert!(!parser.parse(":)").is_ok_and(|matches| matches));
    assert!(!parser.parse("\":)\"").unwrap());
    assert!(matches!(parser.parse("\"unclosed"), Err(Error::Query(_))));
}

#[test]
fn last_word_is_a_prefix_while_typing() {
    let prefix = fuzziness(true, false);
    assert_eq!(
        while_typing("one Kube", &prefix),
        Query::Boolean(vec![
            (Occur::Must, exact("one")),
            (
                Occur::Must,
                Query::Boolean(vec![
                    (Occur::Should, exact("Kube")),
                    fuzzy(Field::Body, "kube", 0, true),
                    fuzzy(Field::Topic, "kube", 0, true),
                ])
            ),
        ])
    );

    // Whitespace ends the word, and one character is too short.
    let exactly = |text: &str| Query::Boolean(vec![(Occur::Must, exact(text))]);
    assert_eq!(while_typing("Kube ", &prefix), exactly("Kube"));
    assert_eq!(while_typing("K", &prefix), exactly("K"));
    assert_eq!(while_typing("Kube", &fuzziness(false, false)), exactly("Kube"));
}

#[test]
fn words_match_with_typos() {
    let typos = fuzziness(false, true);
    assert_eq!(
        while_typing("words kubernetes", &typos),
        Query::Boolean(vec![
            (
                Occur::Must,
                Query::Boolean(vec![
                    (Occur::Should, exact("words")),
                    fuzzy(Field::Body, "words", 1, false),
                    fuzzy(Field::Topic, "words", 1, false),
                ])
            ),
            (
                Occur::Must,
                Query::Boolean(vec![
                    (Occur::Should, exact("kubernetes")),
                    fuzzy(Field::Body, "kubernetes", 2, false),
                    fuzzy(Field::Topic, "kubernetes", 2, false),
                ])
            ),
        ])
    );
}

#[test]
fn word_of_several_tokens_is_a_phrase_prefix() {
    let prefix_of = |field: Field| {
        (
            Occur::Should,
            Query::PhrasePrefix(vec![term(field, "e"), term(field, "ma")]),
        )
    };
    assert_eq!(
        while_typing("e-ma", &fuzziness(true, true)),
        Query::Boolean(vec![(
            Occur::Must,
            Query::Boolean(vec![
                (Occur::Should, exact("e-ma")),
                prefix_of(Field::Body),
                prefix_of(Field::Topic),
            ])
        )])
    );
    assert_eq!(
        while_typing("e-ma ", &fuzziness(true, true)),
        Query::Boolean(vec![(Occur::Must, exact("e-ma"))])
    );
}

#[test]
fn phrases_and_excluded_words_match_exactly() {
    assert_eq!(
        while_typing("\"kubernetes\" -kubernetes", &fuzziness(true, true)),
        Query::Boolean(vec![
            (Occur::Must, exact("kubernetes")),
            (Occur::MustNot, exact("kubernetes")),
        ])
    );
    assert_eq!(while_typing(":)", &fuzziness(true, true)), Query::Empty);
}

#[test]
fn word_query_follows_its_tokens() {
    let all = fuzziness(true, true);
    let tokens = |list: &[&str]| list.iter().map(|t| t.to_string()).collect::<Vec<_>>();

    assert_eq!(word_query("x", false, &all, &tokens(&[]), true), None);
    assert_eq!(
        word_query("x", true, &all, &tokens(&[]), true),
        Some(exact("x"))
    );
    assert_eq!(
        word_query("x", false, &all, &tokens(&["token"]), false),
        Some(Query::Boolean(vec![
            fuzzy(Field::Body, "token", 1, false),
            fuzzy(Field::Topic, "token", 1, false),
        ]))
    );
    assert_eq!(
        word_query("x", true, &all, &tokens(&["a", "b"]), true),
        Some(exact("x"))
    );
}

#[test]
fn analyzers_cut_text_into_tokens() {
    let tokens = |analysis: TextAnalysis, text: &str| Analyzer::new(analysis).unwrap().tokens(text);

    let words = TextAnalysis::Words { limit: 6 };
    assert_eq!(tokens(words, "Two Words, longer"), ["two", "words"]);

    let stemmed = TextAnalysis::Stemmed {
        limit: 40,
        language: Language::English,
    };
    assert_eq!(tokens(stemmed, "Running tests"), ["run", "test"]);
    let german = TextAnalysis::Stemmed {
        limit: 40,
        language: Language::German,
    };
    assert_eq!(tokens(german, "Häuser"), ["haus"]);

    let ngrams = TextAnalysis::Ngrams {
        min_gram: 2,
        max_gram: 3,
    };
    assert_eq!(tokens(ngrams, "AbC"), ["ab", "abc", "bc"]);

    assert_eq!(
        fuzziness(true, true).tokens("e-Ma il"),
        ["e", "ma", "il"]
    );
}

#[test]
fn ngrams_need_possible_sizes() {
    for (min_gram, max_gram) in [(0, 2), (3, 2), (0, 0)] {
        assert!(matches!(
            Analyzer::new(TextAnalysis::Ngrams { min_gram, max_gram }),
            Err(Error::Tokenizer(_))
        ));
        let config = Config {
            language: Language::English,
            tokenizer_mode: TokenizerMode::Ngram { min_gram, max_gram },
        };
        assert!(matches!(Index::new(&config), Err(Error::Tokenizer(_))));
    }
    assert!(Analyzer::new(TextAnalysis::Ngrams {
        min_gram: 2,
        max_gram: 2
    })
    .is_ok());
}

#[test]
fn ngrams_are_all_parts_in_order() {
    let tokens = |min_gram: usize, max_gram: usize, text: &str| {
        Analyzer::new(TextAnalysis::Ngrams { min_gram, max_gram })
            .unwrap()
            .tokens(text)
    };
    assert_eq!(
        tokens(1, 3, "aBcD"),
        ["a", "ab", "abc", "b", "bc", "bcd", "c", "cd", "d"]
    );
    assert_eq!(tokens(2, 2, "a, B"), ["a,", ", ", " b"]);
    assert_eq!(tokens(2, 9, "ÄÖü"), ["äö", "äöü", "öü"]);
    assert_eq!(tokens(1, 1, "İ"), ["i\u{307}"]);
    assert_eq!(tokens(3, 5, "ab"), Vec::<String>::new());
    assert_eq!(tokens(2, 2, ""), Vec::<String>::new());
}

#[test]
fn tokens_ignore_case() {
    for analysis in [
        TextAnalysis::Words { limit: 40 },
        TextAnalysis::Stemmed {
            limit: 40,
            language: Language::German,
        },
        TextAnalysis::Ngrams {
            min_gram: 2,
            max_gram: 4,
        },
    ] {
        let analyzer = Analyzer::new(analysis).unwrap();
        assert_eq!(
            analyzer.tokens("Die Häuser, MASCHINE"),
            analyzer.tokens("DIE HÄUSER, maschine")
        );
    }
}

#[test]
fn words_are_alphanumeric_runs() {
    let tokens = |limit: usize, text: &str| {
        Analyzer::new(TextAnalysis::Words { limit })
            .unwrap()
            .tokens(text)
    };
    assert_eq!(
        tokens(40, "e-mail V2.3 Straße_東京"),
        ["e", "mail", "v2", "3", "straße", "東京"]
    );
    // The limit counts bytes, before the lower case.
    assert_eq!(tokens(7, "Straße Strasse"), Vec::<String>::new());
    assert_eq!(tokens(8, "Straße Strasse"), ["straße", "strasse"]);
    assert_eq!(tokens(3, "Ⱥ"), ["ⱥ"]);
    assert_eq!(tokens(0, "a"), Vec::<String>::new());
}

#[test]
fn parts_of_a_text_have_its_ngrams() {
    let analyzer = Analyzer::new(TextAnalysis::Ngrams {
        min_gram: 2,
        max_gram: 4,
    })
    .unwrap();
    let all = analyzer.tokens("Der Maschinenbau-Kurs nutzt Kubernetes");
    for part in ["maschine", "MASCHINE", "bernet", "u-k", "De"] {
        let tokens = analyzer.tokens(part);
        assert!(!tokens.is_empty());
        assert!(tokens.iter().all(|token| all.contains(token)), "{:?}", part);
    }
}

#[test]
fn complete_words_are_no_prefixes() {
    for term in ["kubernetes clu ", "kube \"clu\"", "kube \"clu", "", "kube -\"c\""] {
        assert_eq!(
            while_typing(term, &fuzziness(true, true)),
            while_typing(term, &fuzziness(false, true)),
            "{:?}",
            term
        );
    }
}

#[test]
fn or_joins_and_and_is_ignored() {
    let both = |term: &str| while_typing(term, &fuzziness(true, true));
    assert_eq!(both("one AND two"), both("one two"));
    assert_eq!(plain("one and two"), plain("one two"));
    assert_eq!(
        plain("one or -two three"),
        Query::Boolean(vec![
            (Occur::Should, plain("one")),
            (Occur::Should, plain("-two three")),
        ])
    );
}
