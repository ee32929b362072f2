//! The index, and the searches of it.

use tantivy::schema::Schema;
use tantivy::tokenizer::TokenizerManager;
use vstd::prelude::*;

use crate::analysis::default_tokenizers;
use crate::analysis::possible;
use crate::analysis::registered;
use crate::analysis::tokenizers_with;
use crate::analysis::usable;
use crate::analysis::Analyzer;
use crate::config::law_tokenizer_name_tells_analysis;
use crate::config::Config;
use crate::config::Language;
use crate::config::SearchConfig;
use crate::config::SearchConfigView;
use crate::config::TextAnalysis;
use crate::config::TokenizerMode;
use crate::config::WORD_BYTE_LIMIT;
use crate::error::Error;
use crate::events::EventType;
use crate::grammar::alternatives_of;
use crate::parser::default_is_text;
use crate::parser::parse_outcome;
use crate::parser::reads_text;
use crate::parser::Parser;
use crate::parser::ParserSettings;
use crate::query::boolean;
use crate::query::part_views;
use crate::query::Occur;
use crate::query::Query;
use crate::query::Term;
use crate::query::TermView;
use crate::query::Tree;
use crate::schema::build_schema;
use crate::schema::index_fields;
use crate::schema::schema_fields;
use crate::schema::Field;
use crate::search_syntax;
use crate::search_syntax::all_plain;
use crate::search_syntax::search_tree;

verus! {

/// An index: the fields of its documents, and the tokenizers of its text.
pub struct Index {
    config: Config,
    schema: Schema,
    tokenizers: TokenizerManager,
}

impl View for Index {
    type V = Config;

    /// The settings of the index.
    closed spec fn view(&self) -> Config {
        self.config
    }
}

/// The name of the tokenizer of an index.
pub open spec fn index_tokenizer(config: Config) -> Seq<char> {
    config.tokenizer_mode.tokenizer_name(config.language)
}

/// How an index treats text.
pub open spec fn index_analysis(config: Config) -> TextAnalysis {
    config.tokenizer_mode.text_analysis(config.language)
}

impl Index {
    /// The tokenizers that the index knows, by name.
    pub closed spec fn known_tokenizers(self) -> Map<Seq<char>, TextAnalysis> {
        registered(self.tokenizers)
    }

    /// The fields and the tokenizer belong to the settings.
    #[verifier::type_invariant]
    spec fn valid(self) -> bool {
        &&& schema_fields(self.schema) == index_fields(index_tokenizer(self.config))
        &&& registered(self.tokenizers).contains_pair(
            index_tokenizer(self.config),
            index_analysis(self.config),
        )
        &&& possible(index_analysis(self.config))
        &&& usable(index_analysis(self.config))
    }

    /// An index with these settings. Next to its own tokenizer, it knows the
    /// default one.
    pub fn new(config: &Config) -> (r: Result<Index, Error>)
        requires
            usable(index_analysis(*config)),
        ensures
            r is Ok <==> possible(index_analysis(*config)),
            r matches Ok(index) ==> {
                &&& index@ == *config
                &&& index.known_tokenizers().contains_pair(
                    index_tokenizer(*config),
                    index_analysis(*config),
                )
                &&& index.known_tokenizers().contains_pair(
                    "default"@,
                    TextAnalysis::Words { limit: WORD_BYTE_LIMIT },
                )
            },
            r matches Err(e) ==> e is Tokenizer,
    {
        proof {
            law_tokenizer_name_tells_analysis(
                config.tokenizer_mode,
                config.language,
                TokenizerMode::LanguageBased,
                Language::Unknown,
            );
        }
        let name = config.tokenizer_mode.as_tokenizer_name(config.language);
        let schema = build_schema(name.as_str());
        let analysis = config.tokenizer_mode.as_text_analysis(config.language);
        let tokenizers = match analysis {
            TextAnalysis::Words { .. } => default_tokenizers(),
            _ => match Analyzer::new(analysis) {
                Ok(analyzer) => tokenizers_with(name.as_str(), analyzer),
                Err(error) => return Err(error),
            },
        };
        Ok(Index { config: *config, schema, tokenizers })
    }

    /// The fields of the index.
    pub fn schema(&self) -> (schema: &Schema)
        ensures
            schema_fields(*schema) == index_fields(index_tokenizer(self@)),
    {
        proof {
            use_type_invariant(self);
        }
        &self.schema
    }

    /// The tokenizers that the index knows.
    pub fn tokenizers(&self) -> (tokenizers: &TokenizerManager)
        ensures
            registered(*tokenizers) == self.known_tokenizers(),
            registered(*tokenizers).contains_pair(
                index_tokenizer(self@),
                index_analysis(self@),
            ),
            possible(index_analysis(self@)),
            usable(index_analysis(self@)),
    {
        proof {
            use_type_invariant(self);
        }
        &self.tokenizers
    }

    /// What searches the index.
    pub fn get_searcher(&self) -> (searcher: IndexSearcher<'_>)
        ensures
            searcher.index() == *self,
    {
        IndexSearcher { index: self }
    }
}

/// Searches an index.
pub struct IndexSearcher<'a> {
    index: &'a Index,
}

/// The numbers of the fields to search for events of some kinds, or of all
/// kinds if there are none.
pub open spec fn searched_fields(keys: Seq<EventType>) -> Seq<u32> {
    if keys.len() == 0 {
        seq![Field::Body.id(), Field::Topic.id(), Field::Name.id()]
    } else {
        keys.map_values(|key: EventType| Field::of_event(key).id())
    }
}

/// The numbers of the fields to search for events of some kinds, or of all
/// kinds if there are none.
fn fields_of(keys: &Vec<EventType>) -> (fields: Vec<u32>)
    ensures
        fields@ == searched_fields(keys@),
{
    let mut fields: Vec<u32> = Vec::new();
    if keys.len() == 0 {
        fields.push(Field::Body.id());
        fields.push(Field::Topic.id());
        fields.push(Field::Name.id());
        assert(fields@ =~= searched_fields(keys@));
    } else {
        let mut i: usize = 0;
        while i < keys.len()
            invariant
                i <= keys.len(),
                fields.len() == i,
                forall|j: int| 0 <= j < i ==> fields@[j] == Field::of_event(keys@[j]).id(),
            decreases keys.len() - i,
        {
            fields.push(Field::of_event(keys[i]).id());
            i = i + 1;
        }
        assert(fields@ =~= searched_fields(keys@));
    }
    fields
}

/// The query for a search term, unless it is no valid query. Only the query
/// language can be wrong.
pub open spec fn term_tree(settings: ParserSettings, term: Seq<char>, query_syntax: bool) -> Option<
    Tree,
> {
    if term.len() == 0 {
        Some(Tree::All)
    } else if query_syntax {
        if parse_outcome(settings, term) is Some {
            Some(Tree::Syntax(term))
        } else {
            None
        }
    } else {
        Some(search_tree(settings, None, term))
    }
}

/// The token that all events of a room have.
pub open spec fn room_term(room: Seq<char>) -> TermView {
    TermView { field: Field::RoomId, text: room }
}

/// A query that only finds events of a room, if there is one.
pub open spec fn in_room(tree: Tree, room: Option<Seq<char>>) -> Tree {
    match room {
        Some(room) => Tree::Boolean(
            seq![(Occur::Must, Tree::Term(room_term(room))), (Occur::Must, tree)],
        ),
        None => tree,
    }
}

impl<'a> IndexSearcher<'a> {
    /// The index that is searched.
    pub closed spec fn index(self) -> Index {
        *self.index
    }

    /// What the parser for a search goes by. All words have to match in both
    /// syntaxes.
    pub open spec fn settings(self, config: SearchConfigView) -> ParserSettings {
        ParserSettings {
            fields: index_fields(index_tokenizer(self.index()@)),
            tokenizers: self.index().known_tokenizers(),
            defaults: searched_fields(config.keys),
            all_words: config.query_syntax,
        }
    }

    /// The query for a search, unless the term is no valid query.
    pub open spec fn query_tree(self, term: Seq<char>, config: SearchConfigView) -> Option<Tree> {
        match term_tree(self.settings(config), term, config.query_syntax) {
            Some(tree) => Some(in_room(tree, config.room_id)),
            None => None,
        }
    }

    /// The parser for a search.
    pub fn parser(&self, config: &SearchConfig) -> (parser: Parser)
        ensures
            parser@ == self.settings(config@),
            reads_text(parser@),
            parser@.all_words == config.query_syntax,
            config.keys@.len() == 0 ==> parser@.defaults == seq![0u32, 1u32, 2u32],
            config.keys@.len() > 0 ==> parser@.defaults.len() == config.keys@.len(),
            config.keys@.len() > 0 ==> forall|i: int|
                0 <= i < config.keys@.len() ==> (#[trigger] parser@.defaults[i])
                    == match config.keys@[i] {
                    EventType::Message => 0u32,
                    EventType::Topic => 1u32,
                    EventType::Name => 2u32,
                },
    {
        let fields = fields_of(&config.keys);
        let tokenizers = self.index.tokenizers();
        let parser = Parser::new(self.index.schema(), tokenizers, &fields, config.query_syntax);
        proof {
            let settings = parser@;
            assert forall|i: int| 0 <= i < settings.defaults.len() implies
                #[trigger] default_is_text(settings, i) by {
                if config.keys@.len() == 0 {
                    assert(settings.defaults[i] <= 2);
                } else {
                    assert(settings.defaults[i] == Field::of_event(config.keys@[i]).id());
                }
            }
        }
        parser
    }

    /// The query for a search.
    pub fn parse_query(&self, term: &str, config: &SearchConfig) -> (r: Result<Query, Error>)
        ensures
            match self.query_tree(term@, config@) {
                Some(tree) => r matches Ok(query) && query@ == tree,
                None => r matches Err(e) && e is Query,
            },
            !config.query_syntax ==> r is Ok && (term@.len() > 0 ==> all_plain(
                self.settings(config@),
                alternatives_of(term@),
            )),
    {
        let query = if term.is_empty() {
            Query::All
        } else {
            let parser = self.parser(config);
            if config.query_syntax {
                match parser.parse(term) {
                    Ok(_) => Query::Syntax(term.to_owned()),
                    Err(error) => return Err(error),
                }
            } else {
                match search_syntax::parse(&parser, term, None) {
                    Ok(query) => query,
                    Err(error) => return Err(error),
                }
            }
        };
        // The room filter is a query, not query syntax, so that the search
        // term can't change what the filter means.
        let ghost tree = query@;
        match &config.room_id {
            Some(room) => {
                let mut parts: Vec<(Occur, Query)> = Vec::new();
                parts.push(
                    (Occur::Must, Query::Term(Term { field: Field::RoomId, text: room.clone() })),
                );
                parts.push((Occur::Must, query));
                assert(part_views(parts@) =~= seq![
                    (Occur::Must, Tree::Term(room_term(room@))),
                    (Occur::Must, tree),
                ]);
                Ok(boolean(parts))
            },
            None => Ok(query),
        }
    }
}

} // verus!
