//! What the settings of a search promise.

use vstd::prelude::*;

use crate::analysis::analyzer_tokens;
use crate::analysis_laws::law_ngrams_find_parts;
use crate::analysis_laws::law_ngrams_of_long_texts;
use crate::analysis_laws::same_but_case;
use crate::config::SearchConfigView;
use crate::config::TextAnalysis;
use crate::document::event_values;
use crate::document::holds;
use crate::document::lemma_event_holds;
use crate::events::Event;
use crate::events::EventType;
use crate::grammar::alternatives_of;
use crate::grammar::is_and;
use crate::grammar::is_or;
use crate::grammar_laws::is_word;
use crate::index::in_room;
use crate::index::index_analysis;
use crate::index::index_tokenizer;
use crate::index::room_term;
use crate::index::searched_fields;
use crate::index::IndexSearcher;
use crate::parser::default_analysis;
use crate::parser::has_tokens;
use crate::parser::parse_outcome;
use crate::query::selects;
use crate::query::Occur;
use crate::query::TermView;
use crate::query::Tree;
use crate::schema::index_fields;
use crate::schema::Field;
use crate::search_laws::finds;
use crate::search_laws::law_search_matches;
use crate::search_laws::law_word_finds_itself;
use crate::search_laws::lemma_same_parts;
use crate::search_laws::meets;
use crate::search_laws::meets_all;
use crate::search_syntax::all_plain;
use crate::search_syntax::clause_part;
use crate::search_syntax::plain;
use crate::search_syntax::search_tree;

verus! {

/// A search of a room finds the events of the room that the search term finds,
/// and no others, whatever the term is.
pub proof fn law_room_filter(
    event: Event,
    tree: Tree,
    room: Seq<char>,
    leaf: spec_fn(Tree) -> bool,
)
    requires
        leaf(Tree::Term(room_term(room))) == holds(event_values(event), room_term(room)),
    ensures
        selects(in_room(tree, Some(room)), leaf) <==> event.room_id@ == room && selects(tree, leaf),
{
    lemma_event_holds(event, room_term(room));
    let parts = seq![(Occur::Must, Tree::Term(room_term(room))), (Occur::Must, tree)];
    let term = Tree::Term(room_term(room));
    assert(selects(term, leaf) == leaf(term));
    assert(parts[0].1 == term && parts[1].1 == tree);
    if selects(in_room(tree, Some(room)), leaf) {
        assert(parts[0].0 == Occur::Must);
        assert(parts[1].0 == Occur::Must);
    }
    if event.room_id@ == room && selects(tree, leaf) {
        assert(parts[1].0 != Occur::MustNot && selects(parts[1].1, leaf));
    }
}

/// A search looks at the text of the events of the kinds that were asked for,
/// or of all events if none were.
pub proof fn law_keys_choose_events(keys: Seq<EventType>, event_type: EventType)
    ensures
        searched_fields(keys).contains(Field::of_event(event_type).id()) <==> keys.len() == 0
            || keys.contains(event_type),
{
    let fields = searched_fields(keys);
    let field = Field::of_event(event_type).id();
    if keys.len() == 0 {
        assert(fields[field as int] == field);
    } else {
        if keys.contains(event_type) {
            let i = choose|i: int| 0 <= i < keys.len() && keys[i] == event_type;
            assert(fields[i] == field);
        }
        if fields.contains(field) {
            let i = choose|i: int| 0 <= i < fields.len() && fields[i] == field;
            assert(keys[i] == event_type);
        }
    }
}

/// The kinds of events that there are.
pub open spec fn all_keys() -> Seq<EventType> {
    seq![EventType::Message, EventType::Topic, EventType::Name]
}

/// A search without keys is the search with all of them, in both syntaxes.
pub proof fn law_no_keys_are_all_keys(
    searcher: IndexSearcher,
    term: Seq<char>,
    config: SearchConfigView,
)
    requires
        config.keys.len() == 0,
    ensures
        searcher.query_tree(term, config) == searcher.query_tree(
            term,
            SearchConfigView { keys: all_keys(), ..config },
        ),
{
    assert(searched_fields(config.keys) =~= searched_fields(all_keys()));
}

/// All fields to search are cut by the same tokenizer.
proof fn lemma_tokens_of_keys(searcher: IndexSearcher, config: SearchConfigView, text: Seq<char>)
    ensures
        has_tokens(searcher.settings(config), text) <==> analyzer_tokens(
            searcher.index().known_tokenizers()[index_tokenizer(searcher.index()@)],
            text,
        ).len() > 0,
{
    let settings = searcher.settings(config);
    let analysis = searcher.index().known_tokenizers()[index_tokenizer(searcher.index()@)];
    let fields = settings.defaults;
    assert(fields.len() > 0);
    assert forall|i: int| 0 <= i < fields.len() implies #[trigger] default_analysis(settings, i)
        == analysis by {
        if config.keys.len() > 0 {
            assert(fields[i] == Field::of_event(config.keys[i]).id());
        }
        assert(fields[i] <= 2);
    }
    assert(default_analysis(settings, 0) == analysis);
}

/// The keys decide where a search looks, not what it looks for: in the default
/// syntax, the query is the same with all keys.
pub proof fn law_keys_keep_the_query(
    searcher: IndexSearcher,
    term: Seq<char>,
    config: SearchConfigView,
    keys: Seq<EventType>,
)
    requires
        !config.query_syntax,
        all_plain(searcher.settings(config), alternatives_of(term)),
        all_plain(
            searcher.settings(SearchConfigView { keys, ..config }),
            alternatives_of(term),
        ),
    ensures
        searcher.query_tree(term, config) == searcher.query_tree(
            term,
            SearchConfigView { keys, ..config },
        ),
{
    let other = SearchConfigView { keys, ..config };
    let a = searcher.settings(config);
    let b = searcher.settings(other);
    let list = alternatives_of(term);
    assert forall|i: int, j: int| 0 <= i < list.len() && 0 <= j < list[i].len() implies clause_part(
        a,
        None,
        #[trigger] list[i][j],
    ) == clause_part(b, None, list[i][j]) by {
        let text = list[i][j].text;
        assert(plain(a, text) && plain(b, text));
        lemma_tokens_of_keys(searcher, config, text);
        lemma_tokens_of_keys(searcher, other, text);
    }
    lemma_same_parts(a, None, b, None, list);
}

/// Which queries without parts match an event, if these texts are found in the
/// text of the event: it has text in one field alone, and its room and its id
/// are tokens of their own.
pub open spec fn event_leaf(
    event: Event,
    keys: Seq<EventType>,
    in_text: spec_fn(Seq<char>) -> bool,
) -> spec_fn(Tree) -> bool {
    |tree: Tree|
        match tree {
            Tree::Exact(text) => searched_fields(keys).contains(
                Field::of_event(event.event_type).id(),
            ) && in_text(text),
            Tree::Term(term) => holds(event_values(event), term),
            _ => false,
        }
}

/// A search with keys finds the events of these kinds that it finds without
/// keys, and no others.
pub proof fn law_keys_filter_events(
    searcher: IndexSearcher,
    term: Seq<char>,
    config: SearchConfigView,
    keys: Seq<EventType>,
    event: Event,
    in_text: spec_fn(Seq<char>) -> bool,
)
    requires
        term.len() > 0,
        !config.query_syntax,
        config.keys.len() == 0,
        keys.len() > 0,
        all_plain(searcher.settings(config), alternatives_of(term)),
        all_plain(
            searcher.settings(SearchConfigView { keys, ..config }),
            alternatives_of(term),
        ),
    ensures
        ({
            let all = searcher.query_tree(term, config);
            let some = searcher.query_tree(term, SearchConfigView { keys, ..config });
            &&& all is Some
            &&& some is Some
            &&& selects(some->Some_0, event_leaf(event, keys, in_text)) <==> keys.contains(
                event.event_type,
            ) && selects(all->Some_0, event_leaf(event, config.keys, in_text))
        }),
{
    let other = SearchConfigView { keys, ..config };
    let settings = searcher.settings(other);
    let leaf = event_leaf(event, keys, in_text);
    law_keys_keep_the_query(searcher, term, config, keys);
    law_keys_choose_events(keys, event.event_type);
    law_keys_choose_events(config.keys, event.event_type);
    let tree = search_tree(settings, None, term);
    if keys.contains(event.event_type) {
        assert(leaf =~= event_leaf(event, config.keys, in_text));
    } else {
        law_search_matches(settings, None, term, leaf);
        let list = alternatives_of(term);
        if selects(tree, leaf) {
            let k = choose|k: int|
                0 <= k < list.len() && meets_all(settings, None, #[trigger] list[k], leaf);
            let clauses = list[k];
            let j = choose|j: int|
                0 <= j < clauses.len() && !(#[trigger] clauses[j]).exclude && clause_part(
                    settings,
                    None,
                    clauses[j],
                ) is Some;
            assert(meets(settings, None, clauses[j], leaf));
            let exact = Tree::Exact(clauses[j].text);
            assert(selects(exact, leaf) == leaf(exact));
            assert(false);
        }
        if let Some(room) = config.room_id {
            law_room_filter(event, tree, room, leaf);
        }
    }
}

/// Whether a text matches another one by n-grams: it has n-grams, and all of
/// them are n-grams of the other one.
pub open spec fn ngrams_match(
    min_gram: usize,
    max_gram: usize,
    content: Seq<char>,
    text: Seq<char>,
) -> bool {
    let analysis = TextAnalysis::Ngrams { min_gram, max_gram };
    &&& analyzer_tokens(analysis, text).len() > 0
    &&& forall|token: Seq<char>| #[trigger]
        analyzer_tokens(analysis, text).contains(token) ==> analyzer_tokens(
            analysis,
            content,
        ).contains(token)
}

/// In an index of n-grams, a search for a word finds the events whose text
/// holds the word anywhere, in upper or lower case, if the word is long enough
/// for an n-gram.
pub proof fn law_ngram_search_finds_parts(
    searcher: IndexSearcher,
    config: SearchConfigView,
    min_gram: usize,
    max_gram: usize,
    word: Seq<char>,
    content: Seq<char>,
    from: int,
    leaf: spec_fn(Tree) -> bool,
)
    requires
        index_analysis(searcher.index()@) == (TextAnalysis::Ngrams { min_gram, max_gram }),
        searcher.index().known_tokenizers().contains_pair(
            index_tokenizer(searcher.index()@),
            index_analysis(searcher.index()@),
        ),
        0 < min_gram <= max_gram,
        is_word(word),
        word[0] != '-',
        !is_or(word),
        !is_and(word),
        plain(searcher.settings(config), word),
        min_gram <= word.len(),
        0 <= from,
        from + word.len() <= content.len(),
        same_but_case(word, content.subrange(from, from + word.len())),
        forall|text: Seq<char>| #[trigger]
            leaf(Tree::Exact(text)) <==> ngrams_match(min_gram, max_gram, content, text),
    ensures
        finds(searcher.settings(config), word, leaf),
{
    let settings = searcher.settings(config);
    let analysis = TextAnalysis::Ngrams { min_gram, max_gram };
    law_ngrams_of_long_texts(min_gram, max_gram, word);
    lemma_tokens_of_keys(searcher, config, word);
    law_word_finds_itself(settings, word, leaf);
    assert forall|token: Seq<char>| #[trigger]
        analyzer_tokens(analysis, word).contains(token) implies analyzer_tokens(
        analysis,
        content,
    ).contains(token) by {
        law_ngrams_find_parts(min_gram, max_gram, content, from, word, token);
    }
    assert(leaf(Tree::Exact(word)));
}

/// A search without a room is the one for the term alone: an empty term asks for
/// every event, and any other one for what its syntax makes of it. Only the
/// query language refuses terms.
pub proof fn law_term_is_the_query(
    searcher: IndexSearcher,
    term: Seq<char>,
    config: SearchConfigView,
)
    requires
        config.room_id is None,
    ensures
        searcher.query_tree(term, config) == if term.len() == 0 {
            Some(Tree::All)
        } else if !config.query_syntax {
            Some(search_tree(searcher.settings(config), None, term))
        } else if parse_outcome(searcher.settings(config), term) is Some {
            Some(Tree::Syntax(term))
        } else {
            None
        },
{
}

/// A search of a room is the search without the room, of which only the events
/// with the room as their token are left, in both syntaxes.
pub proof fn law_room_restricts_the_query(
    searcher: IndexSearcher,
    term: Seq<char>,
    config: SearchConfigView,
    room: Seq<char>,
)
    requires
        config.room_id == Some(room),
    ensures
        ({
            let everywhere = searcher.query_tree(
                term,
                SearchConfigView { room_id: None, ..config },
            );
            let here = searcher.query_tree(term, config);
            match everywhere {
                None => here is None,
                Some(tree) => here matches Some(Tree::Boolean(parts)) && parts.len() == 2
                    && parts[0].0 == Occur::Must && parts[0].1 == Tree::Term(
                    TermView { field: Field::RoomId, text: room },
                ) && parts[1] == (Occur::Must, tree),
            }
        }),
{
}

/// The number and the order of the events, and the page, make no difference to
/// what a search looks for.
pub proof fn law_query_depends_on_what_is_asked(
    searcher: IndexSearcher,
    term: Seq<char>,
    config: SearchConfigView,
    other: SearchConfigView,
)
    requires
        config.room_id == other.room_id,
        config.keys == other.keys,
        config.query_syntax == other.query_syntax,
    ensures
        searcher.query_tree(term, config) == searcher.query_tree(term, other),
{
}

/// A search parses with the fields and the tokenizers of the index, looks at the
/// fields of its keys, and asks for all words of the query language.
pub proof fn law_parser_settings(searcher: IndexSearcher, config: SearchConfigView)
    ensures
        ({
            let settings = searcher.settings(config);
            let index = searcher.index()@;
            &&& settings.fields == index_fields(
                index.tokenizer_mode.tokenizer_name(index.language),
            )
            &&& settings.tokenizers == searcher.index().known_tokenizers()
            &&& settings.all_words == config.query_syntax
            &&& config.keys.len() == 0 ==> settings.defaults == seq![0u32, 1u32, 2u32]
            &&& config.keys.len() > 0 ==> settings.defaults.len() == config.keys.len()
                && forall|i: int|
                0 <= i < config.keys.len() ==> (#[trigger] settings.defaults[i])
                    == match config.keys[i] {
                    EventType::Message => 0u32,
                    EventType::Topic => 1u32,
                    EventType::Name => 2u32,
                }
        }),
{
}

} // verus!
