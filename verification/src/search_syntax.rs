//! The default search syntax.

use vstd::prelude::*;
use vstd::string::StrSliceExecFns;

use crate::analysis::analyzer_tokens;
use crate::analysis::Analyzer;
use crate::config::TextAnalysis;
use crate::error::Error;
use crate::grammar::alternative_views;
use crate::grammar::alternatives_of;
use crate::grammar::clause_views;
use crate::grammar::lemma_clauses_unquoted;
use crate::grammar::read;
use crate::grammar::ClauseView;
use crate::parser::escaped;
use crate::parser::has_tokens;
use crate::parser::parse_outcome;
use crate::parser::quoted;
use crate::parser::reads_text;
use crate::parser::Parser;
use crate::parser::ParserSettings;
use crate::query::boolean;
use crate::query::part_views;
use crate::query::Occur;
use crate::query::Query;
use crate::query::Term;
use crate::query::TermView;
use crate::query::Tree;
use crate::schema::Field;
use crate::text::chars_of;
use crate::text::string_views;

verus! {

/// A shorter last word only matches as a whole word. Almost every message
/// has a word that starts with a given character.
pub const MIN_PREFIX_CHARS: usize = 2;

/// Matches beyond the exact words, for a search that runs while the user
/// types.
pub struct Fuzziness {
    /// The text fields to match prefixes and typos in.
    pub fields: Vec<Field>,
    /// Splits and normalizes a word like the indexed text, without stemming.
    pub normalizer: Analyzer,
    /// The last word also matches as the start of a word.
    pub prefix: bool,
    /// Words also match with typos.
    pub typos: bool,
}

/// Matches beyond the exact words, as a value.
pub struct FuzzinessView {
    pub fields: Seq<Field>,
    pub normalizer: TextAnalysis,
    pub prefix: bool,
    pub typos: bool,
}

impl View for Fuzziness {
    type V = FuzzinessView;

    open spec fn view(&self) -> FuzzinessView {
        FuzzinessView {
            fields: self.fields@,
            normalizer: self.normalizer@,
            prefix: self.prefix,
            typos: self.typos,
        }
    }
}

pub open spec fn fuzziness_view(fuzziness: Option<&Fuzziness>) -> Option<FuzzinessView> {
    match fuzziness {
        Some(fuzziness) => Some(fuzziness@),
        None => None,
    }
}

impl Fuzziness {
    /// The texts of the tokens of a word.
    pub fn tokens(&self, text: &str) -> (tokens: Vec<String>)
        ensures
            string_views(tokens@) == analyzer_tokens(self@.normalizer, text@),
    {
        self.normalizer.tokens(text)
    }
}

/// How many typos a word of some characters may have.
pub open spec fn typos_of_length(length: nat) -> u8 {
    if length <= 4 {
        0
    } else if length <= 8 {
        1
    } else {
        2
    }
}

/// How many typos a word may have: none up to 4 characters, one for 5 to 8
/// characters, and two from 9 characters on.
pub fn typo_distance(word: &str) -> (distance: u8)
    ensures
        distance == typos_of_length(word@.len()),
        word@.len() <= 4 ==> distance == 0,
        5 <= word@.len() <= 8 ==> distance == 1,
        9 <= word@.len() ==> distance == 2,
{
    match word.unicode_len() {
        0..=4 => 0,
        5..=8 => 1,
        _ => 2,
    }
}

/// The query for a text as it is.
pub fn quote(text: &str) -> (query: String)
    ensures
        query@ == quoted(text@),
{
    let chars = chars_of(text);
    let mut query = String::new();
    query.push('"');
    let mut i: usize = 0;
    assert(query@ =~= seq!['"'] + escaped(chars@.take(0)));
    while i < chars.len()
        invariant
            i <= chars.len(),
            query@ == seq!['"'] + escaped(chars@.take(i as int)),
        decreases chars.len() - i,
    {
        let c = chars[i];
        if c == '\\' {
            query.push('\\');
        }
        query.push(c);
        i = i + 1;
        assert(chars@.take(i as int).drop_last() =~= chars@.take(i - 1));
        assert(query@ =~= seq!['"'] + escaped(chars@.take(i as int)));
    }
    assert(chars@.take(i as int) =~= chars@);
    query.push('"');
    assert(query@ =~= quoted(text@));
    query
}

/// Whether the parser refuses to look for a text.
pub open spec fn refused(settings: ParserSettings, text: Seq<char>) -> bool {
    parse_outcome(settings, quoted(text)) is None
}

/// Whether there is anything to match in a text.
pub open spec fn substantial(settings: ParserSettings, text: Seq<char>) -> bool {
    parse_outcome(settings, quoted(text)) == Some(true)
}

/// Whether the parser looks for a text by its tokens, if it has any.
pub open spec fn plain(settings: ParserSettings, text: Seq<char>) -> bool {
    parse_outcome(settings, quoted(text)) == Some(has_tokens(settings, text))
}

/// The query for a text as it is, unless there is nothing to match in it.
pub fn exact_query(parser: &Parser, text: &str) -> (r: Result<Option<Query>, Error>)
    ensures
        match r {
            Ok(Some(query)) => substantial(parser@, text@) && query@ == Tree::Exact(text@),
            Ok(None) => !refused(parser@, text@) && !substantial(parser@, text@),
            Err(e) => refused(parser@, text@) && e is Query,
        },
        reads_text(parser@) && !text@.contains('"') ==> plain(parser@, text@),
{
    match parser.parse(quote(text).as_str()) {
        Ok(true) => Ok(Some(Query::Exact(text.to_owned()))),
        Ok(false) => Ok(None),
        Err(error) => Err(error),
    }
}

/// The part of a query for a text that is matched as it is. Text without any
/// tokens, like ":)", doesn't restrict the search.
pub open spec fn exact_part(settings: ParserSettings, text: Seq<char>, exclude: bool) -> Option<
    (Occur, Tree),
> {
    if substantial(settings, text) {
        Some(
            (
                if exclude {
                    Occur::MustNot
                } else {
                    Occur::Must
                },
                Tree::Exact(text),
            ),
        )
    } else {
        None
    }
}

/// Some parts with one more, if there is one.
pub open spec fn with_part(parts: Seq<(Occur, Tree)>, part: Option<(Occur, Tree)>) -> Seq<
    (Occur, Tree),
> {
    match part {
        Some(part) => parts.push(part),
        None => parts,
    }
}

/// Add a word or phrase to the current alternative.
fn add_clause(
    parser: &Parser,
    clauses: &mut Vec<(Occur, Query)>,
    text: &str,
    exclude: bool,
) -> (r: Result<(), Error>)
    ensures
        r is Err <==> refused(parser@, text@),
        reads_text(parser@) && !text@.contains('"') ==> plain(parser@, text@),
        r matches Err(e) ==> e is Query,
        r is Err ==> part_views(final(clauses)@) == part_views(old(clauses)@),
        r is Ok ==> part_views(final(clauses)@) == with_part(
            part_views(old(clauses)@),
            exact_part(parser@, text@, exclude),
        ),
{
    match exact_query(parser, text) {
        Ok(Some(query)) => {
            let occur = if exclude {
                Occur::MustNot
            } else {
                Occur::Must
            };
            clauses.push((occur, query));
            assert(part_views(clauses@) =~= part_views(old(clauses)@).push(
                (occur, Tree::Exact(text@)),
            ));
            Ok(())
        },
        Ok(None) => Ok(()),
        Err(error) => Err(error),
    }
}

/// Close the current alternative, the next clauses start a new one.
fn add_alternative(
    alternatives: &mut Vec<(Occur, Query)>,
    clauses: &mut Vec<(Occur, Query)>,
)
    ensures
        part_views(final(alternatives)@) == with_part(
            part_views(old(alternatives)@),
            alternative_part(part_views(old(clauses)@)),
        ),
        final(clauses)@.len() == 0,
{
    if clauses.len() > 0 {
        let mut taken: Vec<(Occur, Query)> = Vec::new();
        std::mem::swap(&mut taken, clauses);
        let alternative = boolean(taken);
        alternatives.push((Occur::Should, alternative));
        assert(part_views(alternatives@) =~= part_views(old(alternatives)@).push(
            (Occur::Should, Tree::Boolean(part_views(old(clauses)@))),
        ));
    }
}

/// The part of a query for an alternative. One without anything to match is
/// left out.
pub open spec fn alternative_part(clauses: Seq<(Occur, Tree)>) -> Option<(Occur, Tree)> {
    if clauses.len() > 0 {
        Some((Occur::Should, Tree::Boolean(clauses)))
    } else {
        None
    }
}

/// Whether a word also matches as the start of a word: the user may still be
/// typing it, and its last token is long enough.
pub open spec fn completes(fuzziness: FuzzinessView, tokens: Seq<Seq<char>>, last: bool) -> bool {
    &&& last
    &&& fuzziness.prefix
    &&& tokens.len() > 0
    &&& tokens.last().len() >= MIN_PREFIX_CHARS
}

/// How many typos a token may have.
pub open spec fn allowed_typos(fuzziness: FuzzinessView, token: Seq<char>) -> u8 {
    if fuzziness.typos {
        typos_of_length(token.len())
    } else {
        0
    }
}

/// The query for a token of a field that may have typos, or go on.
pub open spec fn fuzzy_part(field: Field, token: Seq<char>, distance: u8, prefix: bool) -> (
    Occur,
    Tree,
) {
    (Occur::Should, Tree::Fuzzy { term: TermView { field, text: token }, distance, prefix })
}

/// The tokens of a word in a field.
pub open spec fn field_terms(field: Field, tokens: Seq<Seq<char>>) -> Seq<TermView> {
    tokens.map_values(|token: Seq<char>| TermView { field, text: token })
}

/// What else matches a word than the word itself. A word with several tokens,
/// like "e-ma", is a phrase whose last token is a prefix.
pub open spec fn near_parts(
    fuzziness: FuzzinessView,
    tokens: Seq<Seq<char>>,
    last: bool,
) -> Seq<(Occur, Tree)> {
    let prefix = completes(fuzziness, tokens, last);
    if tokens.len() == 1 && (prefix || allowed_typos(fuzziness, tokens[0]) > 0) {
        fuzziness.fields.map_values(
            |field: Field|
                fuzzy_part(field, tokens[0], allowed_typos(fuzziness, tokens[0]), prefix),
        )
    } else if tokens.len() >= 2 && prefix {
        fuzziness.fields.map_values(
            |field: Field| (Occur::Should, Tree::PhrasePrefix(field_terms(field, tokens))),
        )
    } else {
        seq![]
    }
}

/// All that matches a word.
pub open spec fn word_parts(
    text: Seq<char>,
    substantial: bool,
    fuzziness: FuzzinessView,
    tokens: Seq<Seq<char>>,
    last: bool,
) -> Seq<(Occur, Tree)> {
    with_part(
        seq![],
        if substantial {
            Some((Occur::Should, Tree::Exact(text)))
        } else {
            None
        },
    ) + near_parts(fuzziness, tokens, last)
}

/// The query for something that any of some parts matches.
pub open spec fn any_of(parts: Seq<(Occur, Tree)>) -> Option<Tree> {
    if parts.len() == 0 {
        None
    } else if parts.len() == 1 {
        Some(parts[0].1)
    } else {
        Some(Tree::Boolean(parts))
    }
}

pub open spec fn optional_tree(query: Option<Query>) -> Option<Tree> {
    match query {
        Some(query) => Some(query@),
        None => None,
    }
}

/// The query for something that any of some parts matches.
fn join(mut parts: Vec<(Occur, Query)>) -> (query: Option<Query>)
    ensures
        optional_tree(query) == any_of(part_views(parts@)),
{
    if parts.len() == 0 {
        None
    } else if parts.len() == 1 {
        let ghost all = part_views(parts@);
        match parts.pop() {
            Some((_, query)) => {
                assert(all[0].1 == query@);
                Some(query)
            },
            None => None,
        }
    } else {
        Some(boolean(parts))
    }
}

/// The query for a word that matches exactly, or as a prefix or with typos,
/// given the tokens of the word, and whether there is anything to match in the
/// word as it is.
pub fn word_query(
    text: &str,
    substantial: bool,
    fuzziness: &Fuzziness,
    tokens: &Vec<String>,
    last: bool,
) -> (query: Option<Query>)
    ensures
        optional_tree(query) == any_of(
            word_parts(text@, substantial, fuzziness@, string_views(tokens@), last),
        ),
{
    let ghost texts = string_views(tokens@);
    let prefix = last && fuzziness.prefix && tokens.len() > 0 && tokens[tokens.len()
        - 1].as_str().unicode_len() >= MIN_PREFIX_CHARS;
    assert(tokens.len() > 0 ==> texts.last() == tokens@.last()@);
    assert(prefix == completes(fuzziness@, texts, last));
    let mut matches: Vec<(Occur, Query)> = Vec::new();
    assert(part_views(matches@) =~= seq![]);
    if substantial {
        matches.push((Occur::Should, Query::Exact(text.to_owned())));
        assert(part_views(matches@) =~= seq![(Occur::Should, Tree::Exact(text@))]);
    }
    let ghost exact = part_views(matches@);
    let ghost near = near_parts(fuzziness@, texts, last);
    if tokens.len() == 1 {
        let distance: u8 = if fuzziness.typos {
            typo_distance(tokens[0].as_str())
        } else {
            0
        };
        assert(texts[0] == tokens@[0]@);
        if prefix || distance > 0 {
            let mut i: usize = 0;
            while i < fuzziness.fields.len()
                invariant
                    i <= fuzziness.fields.len(),
                    tokens.len() == 1,
                    texts == string_views(tokens@),
                    texts[0] == tokens@[0]@,
                    near == fuzziness@.fields.map_values(
                        |field: Field| fuzzy_part(field, texts[0], distance, prefix),
                    ),
                    part_views(matches@) == exact + near.take(i as int),
                decreases fuzziness.fields.len() - i,
            {
                let ghost so_far = part_views(matches@);
                let term = Term { field: fuzziness.fields[i], text: tokens[0].clone() };
                matches.push((Occur::Should, Query::Fuzzy { term, distance, prefix }));
                assert(part_views(matches@) =~= so_far.push(near[i as int]));
                i = i + 1;
                assert(near.take(i as int) =~= near.take(i - 1).push(near[i - 1]));
            }
            assert(near.take(i as int) =~= near);
        }
    } else if tokens.len() >= 2 && prefix {
        let mut i: usize = 0;
        while i < fuzziness.fields.len()
            invariant
                i <= fuzziness.fields.len(),
                texts == string_views(tokens@),
                near == fuzziness@.fields.map_values(
                    |field: Field| (Occur::Should, Tree::PhrasePrefix(field_terms(field, texts))),
                ),
                part_views(matches@) == exact + near.take(i as int),
            decreases fuzziness.fields.len() - i,
        {
            let ghost so_far = part_views(matches@);
            let terms = terms_of(fuzziness.fields[i], tokens);
            matches.push((Occur::Should, Query::PhrasePrefix(terms)));
            assert(part_views(matches@) =~= so_far.push(near[i as int]));
            i = i + 1;
            assert(near.take(i as int) =~= near.take(i - 1).push(near[i - 1]));
        }
        assert(near.take(i as int) =~= near);
    }
    assert(part_views(matches@) =~= word_parts(text@, substantial, fuzziness@, texts, last));
    join(matches)
}

/// The tokens of a word in a field.
fn terms_of(field: Field, tokens: &Vec<String>) -> (terms: Vec<Term>)
    ensures
        terms@.map_values(|t: Term| t@) == field_terms(field, string_views(tokens@)),
{
    let mut terms: Vec<Term> = Vec::new();
    let mut i: usize = 0;
    while i < tokens.len()
        invariant
            i <= tokens.len(),
            terms.len() == i,
            forall|k: int|
                0 <= k < i ==> (#[trigger] terms@[k])@ == (TermView { field, text: tokens@[k]@ }),
        decreases tokens.len() - i,
    {
        terms.push(Term { field, text: tokens[i].clone() });
        i = i + 1;
    }
    assert(terms@.map_values(|t: Term| t@) =~= field_terms(field, string_views(tokens@)));
    terms
}

/// The part of a query for a word that matches exactly, or as a prefix or
/// with typos.
pub open spec fn word_part(
    settings: ParserSettings,
    fuzziness: FuzzinessView,
    text: Seq<char>,
    last: bool,
) -> Option<(Occur, Tree)> {
    let tokens = analyzer_tokens(fuzziness.normalizer, text);
    match any_of(word_parts(text, substantial(settings, text), fuzziness, tokens, last)) {
        Some(tree) => Some((Occur::Must, tree)),
        None => None,
    }
}

/// Add a word that matches exactly, or as a prefix or with typos.
fn add_word(
    parser: &Parser,
    clauses: &mut Vec<(Occur, Query)>,
    text: &str,
    fuzziness: &Fuzziness,
    last: bool,
) -> (r: Result<(), Error>)
    ensures
        r is Err <==> refused(parser@, text@),
        reads_text(parser@) && !text@.contains('"') ==> plain(parser@, text@),
        r matches Err(e) ==> e is Query,
        r is Err ==> part_views(final(clauses)@) == part_views(old(clauses)@),
        r is Ok ==> part_views(final(clauses)@) == with_part(
            part_views(old(clauses)@),
            word_part(parser@, fuzziness@, text@, last),
        ),
{
    let exact = match exact_query(parser, text) {
        Ok(exact) => exact,
        Err(error) => return Err(error),
    };
    let tokens = fuzziness.tokens(text);
    match word_query(text, exact.is_some(), fuzziness, &tokens, last) {
        Some(query) => {
            clauses.push((Occur::Must, query));
            assert(part_views(clauses@) =~= part_views(old(clauses)@).push((Occur::Must, query@)));
        },
        None => {},
    }
    Ok(())
}

/// The part of a query for a clause. Phrases and excluded words always match
/// exactly.
pub open spec fn clause_part(
    settings: ParserSettings,
    fuzziness: Option<FuzzinessView>,
    clause: ClauseView,
) -> Option<(Occur, Tree)> {
    match (fuzziness, clause.word) {
        (Some(fuzziness), Some(last)) if !clause.exclude => word_part(
            settings,
            fuzziness,
            clause.text,
            last,
        ),
        _ => exact_part(settings, clause.text, clause.exclude),
    }
}

/// The parts of a query for the clauses of an alternative.
pub open spec fn clause_parts(
    settings: ParserSettings,
    fuzziness: Option<FuzzinessView>,
    clauses: Seq<ClauseView>,
) -> Seq<(Occur, Tree)>
    decreases clauses.len(),
{
    if clauses.len() == 0 {
        seq![]
    } else {
        with_part(
            clause_parts(settings, fuzziness, clauses.drop_last()),
            clause_part(settings, fuzziness, clauses.last()),
        )
    }
}

/// The parts of a query for some alternatives.
pub open spec fn alternative_parts(
    settings: ParserSettings,
    fuzziness: Option<FuzzinessView>,
    alternatives: Seq<Seq<ClauseView>>,
) -> Seq<(Occur, Tree)>
    decreases alternatives.len(),
{
    if alternatives.len() == 0 {
        seq![]
    } else {
        with_part(
            alternative_parts(settings, fuzziness, alternatives.drop_last()),
            alternative_part(clause_parts(settings, fuzziness, alternatives.last())),
        )
    }
}

/// The query for a search term.
pub open spec fn search_tree(
    settings: ParserSettings,
    fuzziness: Option<FuzzinessView>,
    term: Seq<char>,
) -> Tree {
    match any_of(alternative_parts(settings, fuzziness, alternatives_of(term))) {
        Some(tree) => tree,
        None => Tree::Empty,
    }
}

/// Whether the parser refuses to look for any clause of a search term.
pub open spec fn any_refused(
    settings: ParserSettings,
    alternatives: Seq<Seq<ClauseView>>,
) -> bool {
    exists|i: int, j: int|
        0 <= i < alternatives.len() && 0 <= j < alternatives[i].len() && refused(
            settings,
            (#[trigger] alternatives[i][j]).text,
        )
}

/// Whether the parser looks for the text of every clause by its tokens.
pub open spec fn all_plain(settings: ParserSettings, alternatives: Seq<Seq<ClauseView>>) -> bool {
    forall|i: int, j: int|
        0 <= i < alternatives.len() && 0 <= j < alternatives[i].len() ==> plain(
            settings,
            (#[trigger] alternatives[i][j]).text,
        )
}

/// Parse a search term.
///
/// * All words and phrases have to match.
/// * Text in double quotes is a phrase. An unclosed quote makes the rest of
///   the term a phrase.
/// * A leading `-` excludes the next word or phrase.
/// * `or` separates alternatives, `and` is optional. Both are
///   case-insensitive.
///
/// Everything else is text, so no search term is a syntax error. Words are
/// only split at whitespace. The tokenizer of the index handles punctuation,
/// the same way it does for the indexed text.
///
/// With `fuzziness`, words may also match as a prefix or with typos. Phrases
/// and excluded words always match exactly.
pub fn parse(parser: &Parser, term: &str, fuzziness: Option<&Fuzziness>) -> (r: Result<
    Query,
    Error,
>)
    ensures
        r is Err <==> any_refused(parser@, alternatives_of(term@)),
        r matches Err(e) ==> e is Query,
        r matches Ok(query) ==> query@ == search_tree(
            parser@,
            fuzziness_view(fuzziness),
            term@,
        ),
        reads_text(parser@) ==> r is Ok && all_plain(parser@, alternatives_of(term@)),
{
    let list = read(term);
    let ghost views = alternatives_of(term@);
    let ghost fuzzy = fuzziness_view(fuzziness);
    let mut alternatives: Vec<(Occur, Query)> = Vec::new();
    let mut clauses: Vec<(Occur, Query)> = Vec::new();
    let mut i: usize = 0;
    proof {
        lemma_clauses_unquoted(term@);
    }
    assert(part_views(alternatives@) =~= seq![]);
    assert(part_views(clauses@) =~= seq![]);
    while i < list.len()
        invariant
            i <= list.len(),
            views == alternative_views(list@),
            views == alternatives_of(term@),
            fuzzy == fuzziness_view(fuzziness),
            clauses.len() == 0,
            part_views(alternatives@) == alternative_parts(parser@, fuzzy, views.take(i as int)),
            forall|k: int, j: int|
                0 <= k < i && 0 <= j < views[k].len() ==> !refused(
                    parser@,
                    (#[trigger] views[k][j]).text,
                ),
            reads_text(parser@) ==> forall|k: int, j: int|
                0 <= k < i && 0 <= j < views[k].len() ==> plain(
                    parser@,
                    (#[trigger] views[k][j]).text,
                ),
            forall|k: int, j: int|
                0 <= k < views.len() && 0 <= j < views[k].len() ==> !(
                #[trigger] views[k][j]).text.contains('"'),
        decreases list.len() - i,
    {
        let ghost group = views[i as int];
        let mut j: usize = 0;
        assert(group == clause_views(list@[i as int]@));
        assert(part_views(clauses@) =~= seq![]);
        assert(clause_parts(parser@, fuzzy, group.take(0)) =~= seq![]);
        while j < list[i].len()
            invariant
                i < list.len(),
                j <= list@[i as int].len(),
                group == clause_views(list@[i as int]@),
                fuzzy == fuzziness_view(fuzziness),
                views == alternative_views(list@),
                views == alternatives_of(term@),
                group == views[i as int],
                part_views(clauses@) == clause_parts(parser@, fuzzy, group.take(j as int)),
                forall|k: int|
                    0 <= k < j ==> !refused(parser@, (#[trigger] views[i as int][k]).text),
                reads_text(parser@) ==> forall|k: int|
                    0 <= k < j ==> plain(parser@, (#[trigger] views[i as int][k]).text),
                forall|k: int|
                    0 <= k < group.len() ==> !(#[trigger] views[i as int][k]).text.contains('"'),
            decreases list@[i as int].len() - j,
        {
            let clause = &list[i][j];
            assert(views[i as int][j as int] == clause@);
            let ghost before = part_views(clauses@);
            let text = clause.text.as_str();
            let added = match (fuzziness, clause.word) {
                (Some(fuzziness), Some(last)) if !clause.exclude => add_word(
                    parser,
                    &mut clauses,
                    text,
                    fuzziness,
                    last,
                ),
                _ => add_clause(parser, &mut clauses, text, clause.exclude),
            };
            match added {
                Ok(()) => {},
                Err(error) => {
                    assert(refused(parser@, views[i as int][j as int].text));
                    return Err(error);
                },
            }
            j = j + 1;
            assert(group.take(j as int).drop_last() =~= group.take(j - 1));
            assert(group.take(j as int).last() == clause@);
        }
        assert(group.take(j as int) =~= group);
        add_alternative(&mut alternatives, &mut clauses);
        i = i + 1;
        assert(views.take(i as int).drop_last() =~= views.take(i - 1));
        assert(views.take(i as int).last() == group);
    }
    assert(views.take(i as int) =~= views);
    match join(alternatives) {
        Some(query) => Ok(query),
        None => Ok(Query::Empty),
    }
}

} // verus!
