//! What the default search syntax promises.

use vstd::prelude::*;

use crate::analysis::analyzer_tokens;
use crate::grammar::alternatives_of;
use crate::grammar::is_and;
use crate::grammar::is_or;
use crate::grammar::quote_parts;
use crate::grammar::ClauseView;
use crate::grammar_laws::alike;
use crate::grammar_laws::all_alike;
use crate::grammar_laws::closed_term;
use crate::grammar_laws::dangling;
use crate::grammar_laws::dash_run;
use crate::grammar_laws::is_word;
use crate::grammar_laws::law_and_is_optional;
use crate::grammar_laws::law_complete_words;
use crate::grammar_laws::law_dash_excludes_phrase;
use crate::grammar_laws::law_dash_excludes_word;
use crate::grammar_laws::law_lone_dash;
use crate::grammar_laws::law_or_separates;
use crate::grammar_laws::law_quotes_make_a_phrase;
use crate::grammar_laws::law_terms_combine;
use crate::grammar_laws::law_trailing_space;
use crate::grammar_laws::law_word_has_to_match;
use crate::grammar_laws::lemma_closed_by_space;
use crate::grammar_laws::lemma_empty_term;
use crate::grammar_laws::with_clause;
use crate::parser::default_analysis;
use crate::parser::escaped;
use crate::parser::parse_outcome;
use crate::parser::quoted;
use crate::parser::ParserSettings;
use crate::query::selects;
use crate::query::Occur;
use crate::query::Tree;
use crate::search_syntax::alternative_part;
use crate::search_syntax::alternative_parts;
use crate::search_syntax::any_of;
use crate::search_syntax::clause_part;
use crate::search_syntax::clause_parts;
use crate::search_syntax::exact_part;
use crate::search_syntax::fuzziness_view;
use crate::search_syntax::near_parts;
use crate::search_syntax::plain;
use crate::search_syntax::refused;
use crate::search_syntax::search_tree;
use crate::search_syntax::substantial;
use crate::search_syntax::typos_of_length;
use crate::search_syntax::with_part;
use crate::search_syntax::word_parts;
use crate::search_syntax::Fuzziness;
use crate::search_syntax::FuzzinessView;
use crate::text::whitespace;

verus! {

/// Whether a document meets a clause: it matches what has to match, and does
/// not match what is excluded. A clause without anything to match is met by
/// every document.
pub open spec fn meets(
    settings: ParserSettings,
    fuzziness: Option<FuzzinessView>,
    clause: ClauseView,
    leaf: spec_fn(Tree) -> bool,
) -> bool {
    match clause_part(settings, fuzziness, clause) {
        Some((_, tree)) => if clause.exclude {
            !selects(tree, leaf)
        } else {
            selects(tree, leaf)
        },
        None => true,
    }
}

/// Whether a document meets all clauses of an alternative, and there is
/// something in it that had to match.
pub open spec fn meets_all(
    settings: ParserSettings,
    fuzziness: Option<FuzzinessView>,
    clauses: Seq<ClauseView>,
    leaf: spec_fn(Tree) -> bool,
) -> bool {
    &&& forall|j: int|
        0 <= j < clauses.len() ==> meets(settings, fuzziness, #[trigger] clauses[j], leaf)
    &&& exists|j: int|
        0 <= j < clauses.len() && !(#[trigger] clauses[j]).exclude && clause_part(
            settings,
            fuzziness,
            clauses[j],
        ) is Some
}

proof fn lemma_clause_occur(
    settings: ParserSettings,
    fuzziness: Option<FuzzinessView>,
    clause: ClauseView,
)
    ensures
        clause_part(settings, fuzziness, clause) matches Some((occur, _)) ==> occur
            == if clause.exclude {
            Occur::MustNot
        } else {
            Occur::Must
        },
{
}

/// The parts for some clauses are the parts of each of them.
proof fn lemma_clause_parts(
    settings: ParserSettings,
    fuzziness: Option<FuzzinessView>,
    clauses: Seq<ClauseView>,
)
    ensures
        forall|i: int|
            0 <= i < clause_parts(settings, fuzziness, clauses).len() ==> exists|j: int|
                0 <= j < clauses.len() && clause_part(settings, fuzziness, #[trigger] clauses[j])
                    == Some(#[trigger] clause_parts(settings, fuzziness, clauses)[i]),
        forall|j: int|
            0 <= j < clauses.len() && clause_part(
                settings,
                fuzziness,
                #[trigger] clauses[j],
            ) is Some ==> clause_parts(settings, fuzziness, clauses).contains(
                clause_part(settings, fuzziness, clauses[j])->Some_0,
            ),
    decreases clauses.len(),
{
    if clauses.len() > 0 {
        let shorter = clauses.drop_last();
        lemma_clause_parts(settings, fuzziness, shorter);
        let before = clause_parts(settings, fuzziness, shorter);
        let all = clause_parts(settings, fuzziness, clauses);
        let new = clause_part(settings, fuzziness, clauses.last());
        assert(all == with_part(before, new));
        assert forall|i: int| 0 <= i < all.len() implies exists|j: int|
            0 <= j < clauses.len() && clause_part(settings, fuzziness, #[trigger] clauses[j])
                == Some(#[trigger] all[i]) by {
            if i < before.len() {
                assert(all[i] == before[i]);
                let j = choose|j: int|
                    0 <= j < shorter.len() && clause_part(
                        settings,
                        fuzziness,
                        #[trigger] shorter[j],
                    ) == Some(before[i]);
                assert(clauses[j] == shorter[j]);
            } else {
                assert(clauses[clauses.len() - 1] == clauses.last());
            }
        }
        assert forall|j: int|
            0 <= j < clauses.len() && clause_part(
                settings,
                fuzziness,
                #[trigger] clauses[j],
            ) is Some implies all.contains(
            clause_part(settings, fuzziness, clauses[j])->Some_0,
        ) by {
            let part = clause_part(settings, fuzziness, clauses[j])->Some_0;
            if j < shorter.len() {
                assert(clauses[j] == shorter[j]);
                assert(before.contains(part));
                let i = choose|i: int| 0 <= i < before.len() && before[i] == part;
                assert(all[i] == part);
            } else {
                assert(all[all.len() - 1] == part);
            }
        }
    }
}

/// The query for an alternative matches the documents that meet its clauses.
proof fn lemma_alternative_matches(
    settings: ParserSettings,
    fuzziness: Option<FuzzinessView>,
    clauses: Seq<ClauseView>,
    leaf: spec_fn(Tree) -> bool,
)
    ensures
        selects(Tree::Boolean(clause_parts(settings, fuzziness, clauses)), leaf) == meets_all(
            settings,
            fuzziness,
            clauses,
            leaf,
        ),
{
    let parts = clause_parts(settings, fuzziness, clauses);
    let tree = Tree::Boolean(parts);
    lemma_clause_parts(settings, fuzziness, clauses);
    if selects(tree, leaf) {
        assert forall|j: int| 0 <= j < clauses.len() implies meets(
            settings,
            fuzziness,
            #[trigger] clauses[j],
            leaf,
        ) by {
            lemma_clause_occur(settings, fuzziness, clauses[j]);
            if let Some(part) = clause_part(settings, fuzziness, clauses[j]) {
                assert(parts.contains(part));
                let i = choose|i: int| 0 <= i < parts.len() && parts[i] == part;
                assert(parts[i].0 == part.0);
            }
        }
        let i = choose|i: int|
            0 <= i < parts.len() && (#[trigger] parts[i]).0 != Occur::MustNot && selects(
                parts[i].1,
                leaf,
            );
        let j = choose|j: int|
            0 <= j < clauses.len() && clause_part(settings, fuzziness, #[trigger] clauses[j])
                == Some(parts[i]);
        lemma_clause_occur(settings, fuzziness, clauses[j]);
        assert(!clauses[j].exclude);
    }
    if meets_all(settings, fuzziness, clauses, leaf) {
        assert forall|i: int| 0 <= i < parts.len() implies {
            &&& (#[trigger] parts[i]).0 == Occur::Must ==> selects(parts[i].1, leaf)
            &&& parts[i].0 == Occur::MustNot ==> !selects(parts[i].1, leaf)
        } by {
            let j = choose|j: int|
                0 <= j < clauses.len() && clause_part(settings, fuzziness, #[trigger] clauses[j])
                    == Some(parts[i]);
            lemma_clause_occur(settings, fuzziness, clauses[j]);
            assert(meets(settings, fuzziness, clauses[j], leaf));
        }
        let j = choose|j: int|
            0 <= j < clauses.len() && !(#[trigger] clauses[j]).exclude && clause_part(
                settings,
                fuzziness,
                clauses[j],
            ) is Some;
        lemma_clause_occur(settings, fuzziness, clauses[j]);
        let part = clause_part(settings, fuzziness, clauses[j])->Some_0;
        assert(meets(settings, fuzziness, clauses[j], leaf));
        let i = choose|i: int| 0 <= i < parts.len() && parts[i] == part;
        assert(parts[i].0 != Occur::MustNot && selects(parts[i].1, leaf));
        assert(selects(tree, leaf));
    }
}

/// The parts for some alternatives are the queries for each of them.
proof fn lemma_alternative_parts(
    settings: ParserSettings,
    fuzziness: Option<FuzzinessView>,
    list: Seq<Seq<ClauseView>>,
    leaf: spec_fn(Tree) -> bool,
)
    ensures
        forall|i: int|
            0 <= i < alternative_parts(settings, fuzziness, list).len() ==> (
            #[trigger] alternative_parts(settings, fuzziness, list)[i]).0 == Occur::Should,
        (exists|i: int|
            0 <= i < alternative_parts(settings, fuzziness, list).len() && selects(
                (#[trigger] alternative_parts(settings, fuzziness, list)[i]).1,
                leaf,
            )) <==> (exists|k: int|
            0 <= k < list.len() && meets_all(settings, fuzziness, #[trigger] list[k], leaf)),
    decreases list.len(),
{
    let all = alternative_parts(settings, fuzziness, list);
    if list.len() > 0 {
        let shorter = list.drop_last();
        let before = alternative_parts(settings, fuzziness, shorter);
        lemma_alternative_parts(settings, fuzziness, shorter, leaf);
        lemma_alternative_matches(settings, fuzziness, list.last(), leaf);
        let clauses = clause_parts(settings, fuzziness, list.last());
        let new = alternative_part(clauses);
        assert(all == with_part(before, new));
        if exists|i: int| 0 <= i < all.len() && selects((#[trigger] all[i]).1, leaf) {
            let i = choose|i: int| 0 <= i < all.len() && selects((#[trigger] all[i]).1, leaf);
            if i < before.len() {
                assert(all[i] == before[i]);
                let k = choose|k: int|
                    0 <= k < shorter.len() && meets_all(
                        settings,
                        fuzziness,
                        #[trigger] shorter[k],
                        leaf,
                    );
                assert(list[k] == shorter[k]);
            } else {
                assert(list[list.len() - 1] == list.last());
            }
        }
        if exists|k: int|
            0 <= k < list.len() && meets_all(settings, fuzziness, #[trigger] list[k], leaf) {
            let k = choose|k: int|
                0 <= k < list.len() && meets_all(settings, fuzziness, #[trigger] list[k], leaf);
            if k < shorter.len() {
                assert(list[k] == shorter[k]);
                let i = choose|i: int|
                    0 <= i < before.len() && selects((#[trigger] before[i]).1, leaf);
                assert(all[i] == before[i]);
            } else {
                if clauses.len() == 0 {
                    lemma_clause_parts(settings, fuzziness, list.last());
                    assert(false);
                }
                assert(all[all.len() - 1].1 == Tree::Boolean(clauses));
            }
        }
    }
}

/// A search finds a document if and only if there is an alternative, between
/// the `or`s of the term, all of whose words and phrases the document matches,
/// and none of whose excluded ones. Words without anything to match don't
/// restrict the search, and an alternative that only excludes finds nothing.
pub proof fn law_search_matches(
    settings: ParserSettings,
    fuzziness: Option<FuzzinessView>,
    term: Seq<char>,
    leaf: spec_fn(Tree) -> bool,
)
    ensures
        selects(search_tree(settings, fuzziness, term), leaf) <==> exists|k: int|
            0 <= k < alternatives_of(term).len() && meets_all(
                settings,
                fuzziness,
                #[trigger] alternatives_of(term)[k],
                leaf,
            ),
{
    let list = alternatives_of(term);
    let parts = alternative_parts(settings, fuzziness, list);
    lemma_alternative_parts(settings, fuzziness, list, leaf);
    let tree = search_tree(settings, fuzziness, term);
    if parts.len() == 1 {
        if selects(tree, leaf) {
            assert(selects(parts[0].1, leaf));
        }
    } else if parts.len() > 1 {
        assert(tree == Tree::Boolean(parts));
        if selects(tree, leaf) {
            let i = choose|i: int|
                0 <= i < parts.len() && (#[trigger] parts[i]).0 != Occur::MustNot && selects(
                    parts[i].1,
                    leaf,
                );
            assert(selects(parts[i].1, leaf));
        }
        if exists|i: int| 0 <= i < parts.len() && selects((#[trigger] parts[i]).1, leaf) {
            let i = choose|i: int| 0 <= i < parts.len() && selects((#[trigger] parts[i]).1, leaf);
            assert(parts[i].0 == Occur::Should);
            assert(selects(tree, leaf));
        }
    }
}

/// Phrases and excluded words always match exactly, and without fuzziness all
/// words do.
pub proof fn law_exact_matches(
    settings: ParserSettings,
    fuzziness: Option<FuzzinessView>,
    clause: ClauseView,
)
    requires
        clause.word is None || clause.exclude || fuzziness is None,
    ensures
        clause_part(settings, fuzziness, clause) == exact_part(
            settings,
            clause.text,
            clause.exclude,
        ),
{
}

/// The longer a word, the more typos it may have, and never more than two.
pub proof fn law_longer_words_may_have_more_typos(shorter: nat, longer: nat)
    requires
        shorter <= longer,
    ensures
        typos_of_length(shorter) <= typos_of_length(longer) <= 2,
{
}

/// A word is no prefix unless it is the last one of the term, is still being
/// typed, and its last token has at least two characters.
pub proof fn law_prefixes(fuzziness: FuzzinessView, tokens: Seq<Seq<char>>, last: bool, i: int)
    requires
        !last || !fuzziness.prefix || tokens.len() == 0 || tokens.last().len() < 2,
        0 <= i < near_parts(fuzziness, tokens, last).len(),
    ensures
        near_parts(fuzziness, tokens, last)[i].1 matches Tree::Fuzzy { prefix, .. } && !prefix,
{
}

/// Whether the search engine can run a query: it counts at most two typos, and
/// a phrase has several terms, all of one field.
pub open spec fn runnable(tree: Tree) -> bool
    decreases tree,
{
    match tree {
        Tree::Fuzzy { distance, .. } => distance <= 2,
        Tree::PhrasePrefix(terms) => {
            &&& terms.len() >= 2
            &&& forall|i: int| 0 <= i < terms.len() ==> (#[trigger] terms[i]).field
                == terms[0].field
        },
        Tree::Boolean(parts) => {
            &&& parts.len() > 0
            &&& forall|i: int| 0 <= i < parts.len() ==> runnable((#[trigger] parts[i]).1)
        },
        _ => true,
    }
}

proof fn lemma_clause_runnable(
    settings: ParserSettings,
    fuzziness: Option<FuzzinessView>,
    clause: ClauseView,
)
    ensures
        clause_part(settings, fuzziness, clause) matches Some((_, tree)) ==> runnable(tree),
{
    if let (Some(fuzzy), Some(last)) = (fuzziness, clause.word) {
        if !clause.exclude {
            let tokens = analyzer_tokens(fuzzy.normalizer, clause.text);
            let found = substantial(settings, clause.text);
            let parts = word_parts(clause.text, found, fuzzy, tokens, last);
            let near = near_parts(fuzzy, tokens, last);
            assert forall|i: int| 0 <= i < near.len() implies runnable((#[trigger] near[i]).1) by {}
            assert forall|i: int| 0 <= i < parts.len() implies runnable(
                (#[trigger] parts[i]).1,
            ) by {
                if i >= parts.len() - near.len() {
                    assert(parts[i] == near[i - (parts.len() - near.len())]);
                }
            }
        }
    }
}

proof fn lemma_clauses_runnable(
    settings: ParserSettings,
    fuzziness: Option<FuzzinessView>,
    clauses: Seq<ClauseView>,
)
    ensures
        forall|i: int|
            0 <= i < clause_parts(settings, fuzziness, clauses).len() ==> runnable(
                (#[trigger] clause_parts(settings, fuzziness, clauses)[i]).1,
            ),
    decreases clauses.len(),
{
    if clauses.len() > 0 {
        lemma_clauses_runnable(settings, fuzziness, clauses.drop_last());
        lemma_clause_runnable(settings, fuzziness, clauses.last());
        let before = clause_parts(settings, fuzziness, clauses.drop_last());
        let parts = clause_parts(settings, fuzziness, clauses);
        assert forall|i: int| 0 <= i < parts.len() implies runnable((#[trigger] parts[i]).1) by {
            if i < before.len() {
                assert(parts[i] == before[i]);
            }
        }
    }
}

proof fn lemma_alternatives_runnable(
    settings: ParserSettings,
    fuzziness: Option<FuzzinessView>,
    list: Seq<Seq<ClauseView>>,
)
    ensures
        forall|i: int|
            0 <= i < alternative_parts(settings, fuzziness, list).len() ==> runnable(
                (#[trigger] alternative_parts(settings, fuzziness, list)[i]).1,
            ),
    decreases list.len(),
{
    if list.len() > 0 {
        lemma_alternatives_runnable(settings, fuzziness, list.drop_last());
        lemma_clauses_runnable(settings, fuzziness, list.last());
        let before = alternative_parts(settings, fuzziness, list.drop_last());
        let parts = alternative_parts(settings, fuzziness, list);
        assert forall|i: int| 0 <= i < parts.len() implies runnable((#[trigger] parts[i]).1) by {
            if i < before.len() {
                assert(parts[i] == before[i]);
            }
        }
    }
}

/// The search engine can run the query for every search term.
pub proof fn law_searches_are_runnable(
    settings: ParserSettings,
    fuzziness: Option<FuzzinessView>,
    term: Seq<char>,
)
    ensures
        runnable(search_tree(settings, fuzziness, term)),
{
    lemma_alternatives_runnable(settings, fuzziness, alternatives_of(term));
}

/// Whether a word can only be found through what is near it, and is not: there
/// is nothing to match in the word as it is, but there is something near it,
/// which the document does not match.
pub open spec fn only_near(
    settings: ParserSettings,
    fuzziness: FuzzinessView,
    clause: ClauseView,
    leaf: spec_fn(Tree) -> bool,
) -> bool {
    &&& clause.word is Some
    &&& !clause.exclude
    &&& !substantial(settings, clause.text)
    &&& !meets(settings, Some(fuzziness), clause, leaf)
}

/// Fuzziness only finds more: a document that an alternative of a term finds
/// is found as well when words may match as a prefix or with typos, unless a
/// word of the alternative can only be found through what is near it.
pub proof fn law_fuzziness_finds_more(
    settings: ParserSettings,
    fuzziness: FuzzinessView,
    term: Seq<char>,
    k: int,
    leaf: spec_fn(Tree) -> bool,
)
    requires
        0 <= k < alternatives_of(term).len(),
        meets_all(settings, None, alternatives_of(term)[k], leaf),
        forall|j: int|
            0 <= j < alternatives_of(term)[k].len() ==> !only_near(
                settings,
                fuzziness,
                #[trigger] alternatives_of(term)[k][j],
                leaf,
            ),
    ensures
        selects(search_tree(settings, None, term), leaf),
        selects(search_tree(settings, Some(fuzziness), term), leaf),
{
    let list = alternatives_of(term);
    let clauses = list[k];
    law_search_matches(settings, None, term, leaf);
    law_search_matches(settings, Some(fuzziness), term, leaf);
    assert forall|j: int| 0 <= j < clauses.len() implies meets(
        settings,
        Some(fuzziness),
        #[trigger] clauses[j],
        leaf,
    ) && (clause_part(settings, None, clauses[j]) is Some ==> clause_part(
        settings,
        Some(fuzziness),
        clauses[j],
    ) is Some) by {
        let clause = clauses[j];
        assert(!only_near(settings, fuzziness, list[k][j], leaf));
        assert(meets(settings, None, clause, leaf));
        if clause.word is Some && !clause.exclude && substantial(settings, clause.text) {
            let tokens = analyzer_tokens(fuzziness.normalizer, clause.text);
            let parts = word_parts(clause.text, true, fuzziness, tokens, clause.word->Some_0);
            let tree = clause_part(settings, Some(fuzziness), clause)->Some_0.1;
            assert(parts[0] == (Occur::Should, Tree::Exact(clause.text)));
            assert(leaf(Tree::Exact(clause.text)));
            assert forall|i: int| 0 <= i < parts.len() implies (#[trigger] parts[i]).0
                == Occur::Should by {}
            assert(selects(parts[0].1, leaf));
            assert(selects(tree, leaf));
        }
    }
    let j = choose|j: int|
        0 <= j < clauses.len() && !(#[trigger] clauses[j]).exclude && clause_part(
            settings,
            None,
            clauses[j],
        ) is Some;
    assert(clause_part(settings, Some(fuzziness), clauses[j]) is Some);
    assert(meets_all(settings, Some(fuzziness), list[k], leaf));
}

proof fn lemma_alike_clause_parts(
    settings: ParserSettings,
    x: Seq<ClauseView>,
    y: Seq<ClauseView>,
)
    requires
        alike(x, y),
    ensures
        clause_parts(settings, None, x) == clause_parts(settings, None, y),
    decreases x.len(),
{
    if x.len() > 0 {
        assert(alike(x.drop_last(), y.drop_last())) by {
            assert forall|i: int| 0 <= i < x.drop_last().len() implies (
            #[trigger] x.drop_last()[i]).text == y.drop_last()[i].text && x.drop_last()[i].exclude
                == y.drop_last()[i].exclude by {
                assert(x[i].text == y[i].text);
            }
        }
        lemma_alike_clause_parts(settings, x.drop_last(), y.drop_last());
        assert(x[x.len() - 1].text == y[y.len() - 1].text);
    }
}

proof fn lemma_alike_parts(
    settings: ParserSettings,
    x: Seq<Seq<ClauseView>>,
    y: Seq<Seq<ClauseView>>,
)
    requires
        all_alike(x, y),
    ensures
        alternative_parts(settings, None, x) == alternative_parts(settings, None, y),
    decreases x.len(),
{
    if x.len() > 0 {
        assert(all_alike(x.drop_last(), y.drop_last())) by {
            assert forall|i: int| 0 <= i < x.drop_last().len() implies alike(
                #[trigger] x.drop_last()[i],
                y.drop_last()[i],
            ) by {
                assert(alike(x[i], y[i]));
            }
        }
        lemma_alike_parts(settings, x.drop_last(), y.drop_last());
        assert(alike(x[x.len() - 1], y[y.len() - 1]));
        lemma_alike_clause_parts(settings, x.last(), y.last());
    }
}

/// Without fuzziness, whitespace behind a term makes no difference.
pub proof fn law_trailing_space_is_ignored(settings: ParserSettings, term: Seq<char>, space: char)
    requires
        quote_parts(term).len() % 2 == 1,
        whitespace(space),
    ensures
        search_tree(settings, None, term.push(space)) == search_tree(settings, None, term),
{
    law_trailing_space(term, space);
    lemma_alike_parts(settings, alternatives_of(term.push(space)), alternatives_of(term));
}

/// Whether a search finds a document, without fuzziness.
pub open spec fn finds(
    settings: ParserSettings,
    term: Seq<char>,
    leaf: spec_fn(Tree) -> bool,
) -> bool {
    selects(search_tree(settings, None, term), leaf)
}

/// A text in quotes.
pub open spec fn in_quotes(text: Seq<char>) -> Seq<char> {
    seq!['"'] + text.push('"')
}

/// Whether a term has no alternatives, and something in it has to match.
pub open spec fn asks_for_something(settings: ParserSettings, term: Seq<char>) -> bool {
    &&& alternatives_of(term).len() == 1
    &&& exists|j: int|
        0 <= j < alternatives_of(term)[0].len() && !(
        #[trigger] alternatives_of(term)[0][j]).exclude && substantial(
            settings,
            alternatives_of(term)[0][j].text,
        )
}

/// A search for a text in quotes finds what matches the text as it is.
proof fn lemma_phrase_finds(settings: ParserSettings, text: Seq<char>, leaf: spec_fn(Tree) -> bool)
    requires
        !text.contains('"'),
        substantial(settings, text),
    ensures
        finds(settings, in_quotes(text), leaf) == leaf(Tree::Exact(text)),
{
    let clause = ClauseView { text, exclude: false, word: None };
    let none = Seq::<char>::empty();
    lemma_empty_term();
    law_quotes_make_a_phrase(none, text);
    assert(none + seq!['"'] + text.push('"') =~= in_quotes(text));
    let list = alternatives_of(in_quotes(text));
    assert(list =~= seq![Seq::<ClauseView>::empty().push(clause)]);
    law_search_matches(settings, None, in_quotes(text), leaf);
    let exact = Tree::Exact(text);
    assert(selects(exact, leaf) == leaf(exact));
    assert(list[0][0] == clause);
    assert(meets(settings, None, clause, leaf) == leaf(exact));
    if leaf(exact) {
        assert(meets_all(settings, None, list[0], leaf));
    }
}

/// A term with one more excluded clause finds what the term finds, but for
/// what matches the clause.
proof fn lemma_excluding_finds(
    settings: ParserSettings,
    term: Seq<char>,
    longer: Seq<char>,
    clause: ClauseView,
    leaf: spec_fn(Tree) -> bool,
)
    requires
        asks_for_something(settings, term),
        alternatives_of(longer).len() == 1,
        alternatives_of(longer)[0].len() == alternatives_of(term)[0].len() + 1,
        alike(alternatives_of(longer)[0].drop_last(), alternatives_of(term)[0]),
        alternatives_of(longer)[0].last() == clause,
        clause.exclude,
        substantial(settings, clause.text),
    ensures
        finds(settings, longer, leaf) <==> finds(settings, term, leaf) && !leaf(
            Tree::Exact(clause.text),
        ),
{
    let x = alternatives_of(longer)[0];
    let y = alternatives_of(term)[0];
    law_search_matches(settings, None, longer, leaf);
    law_search_matches(settings, None, term, leaf);
    let exact = Tree::Exact(clause.text);
    assert(selects(exact, leaf) == leaf(exact));
    assert(meets(settings, None, clause, leaf) == !leaf(exact));
    assert(x[x.len() - 1] == clause);
    assert forall|i: int| 0 <= i < y.len() implies x[i].text == (#[trigger] y[i]).text
        && x[i].exclude == y[i].exclude by {
        assert(x.drop_last()[i].text == y[i].text);
    }
    let j = choose|j: int|
        0 <= j < y.len() && !(#[trigger] y[j]).exclude && substantial(settings, y[j].text);
    if meets_all(settings, None, x, leaf) {
        assert forall|i: int| 0 <= i < y.len() implies meets(
            settings,
            None,
            #[trigger] y[i],
            leaf,
        ) by {
            assert(meets(settings, None, x[i], leaf));
        }
        assert(clause_part(settings, None, y[j]) is Some);
        assert(meets(settings, None, x[x.len() - 1], leaf));
        assert(meets_all(settings, None, alternatives_of(term)[0], leaf));
    }
    if meets_all(settings, None, y, leaf) && !leaf(exact) {
        assert forall|i: int| 0 <= i < x.len() implies meets(
            settings,
            None,
            #[trigger] x[i],
            leaf,
        ) by {
            if i < y.len() {
                assert(meets(settings, None, y[i], leaf));
            }
        }
        assert(!x[j].exclude && clause_part(settings, None, x[j]) is Some);
        assert(meets_all(settings, None, alternatives_of(longer)[0], leaf));
    }
}

/// Dashes before a phrase at the end of a term leave out the events that the
/// phrase matches, and no others.
pub proof fn law_search_excludes_phrase(
    settings: ParserSettings,
    term: Seq<char>,
    space: char,
    n: nat,
    text: Seq<char>,
    leaf: spec_fn(Tree) -> bool,
)
    requires
        !term.contains('"'),
        asks_for_something(settings, term),
        whitespace(space),
        n > 0,
        !text.contains('"'),
        substantial(settings, text),
    ensures
        finds(settings, term.push(space) + dash_run(n) + in_quotes(text), leaf) <==> finds(
            settings,
            term,
            leaf,
        ) && !finds(settings, in_quotes(text), leaf),
{
    let start = term.push(space);
    let longer = start + dash_run(n) + in_quotes(text);
    lemma_closed_by_space(term, space);
    law_trailing_space(term, space);
    law_dash_excludes_phrase(start, n, text);
    let clause = ClauseView { text, exclude: true, word: None };
    lemma_with_clause(term, space, longer, clause);
    lemma_excluding_finds(settings, term, longer, clause, leaf);
    lemma_phrase_finds(settings, text, leaf);
}

proof fn lemma_with_clause(term: Seq<char>, space: char, longer: Seq<char>, clause: ClauseView)
    requires
        alternatives_of(term).len() == 1,
        all_alike(alternatives_of(term.push(space)), alternatives_of(term)),
        alternatives_of(longer) == with_clause(alternatives_of(term.push(space)), clause),
    ensures
        alternatives_of(longer).len() == 1,
        alternatives_of(longer)[0].len() == alternatives_of(term)[0].len() + 1,
        alike(alternatives_of(longer)[0].drop_last(), alternatives_of(term)[0]),
        alternatives_of(longer)[0].last() == clause,
{
    let list = alternatives_of(term.push(space));
    assert(alike(list[0], alternatives_of(term)[0]));
    assert(alternatives_of(longer)[0] == list[0].push(clause));
    assert(alternatives_of(longer)[0].drop_last() =~= list[0]);
}

/// Dashes before the last word of a term, with or without whitespace in
/// between, leave out the events that the word matches, and no others. This
/// goes for the words `or` and `and` too.
pub proof fn law_search_excludes_word(
    settings: ParserSettings,
    term: Seq<char>,
    space: char,
    n: nat,
    word: Seq<char>,
    leaf: spec_fn(Tree) -> bool,
)
    requires
        !term.contains('"'),
        asks_for_something(settings, term),
        whitespace(space),
        n > 0,
        is_word(word),
        word[0] != '-',
        substantial(settings, word),
    ensures
        finds(settings, term.push(space) + dash_run(n) + word, leaf) <==> finds(
            settings,
            term,
            leaf,
        ) && !finds(settings, in_quotes(word), leaf),
        finds(settings, term.push(space) + dash_run(n).push(space) + word, leaf) <==> finds(
            settings,
            term,
            leaf,
        ) && !finds(settings, in_quotes(word), leaf),
{
    let start = term.push(space);
    let clause = ClauseView { text: word, exclude: true, word: Some(false) };
    assert(!word.contains('"'));
    lemma_closed_by_space(term, space);
    law_trailing_space(term, space);
    lemma_phrase_finds(settings, word, leaf);

    let close = start + dash_run(n) + word;
    law_dash_excludes_word(start, n, word, space);
    assert(close.push(space) =~= start + dash_run(n) + word.push(space));
    lemma_with_clause(term, space, close.push(space), clause);
    lemma_excluding_finds(settings, term, close.push(space), clause, leaf);
    assert forall|i: int| 0 <= i < close.len() implies close[i] != '"' by {
        lemma_unquoted_end(term, space, dash_run(n), word, i);
    }
    lemma_closed_by_space(close, space);
    law_trailing_space_is_ignored(settings, close, space);

    let lone = dash_run(n).push(space);
    let apart = start + lone + word;
    law_lone_dash(start, n, space);
    law_dash_excludes_word(start + lone, 0, word, space);
    assert(apart.push(space) =~= start + lone + dash_run(0) + word.push(space));
    lemma_with_clause(term, space, apart.push(space), clause);
    lemma_excluding_finds(settings, term, apart.push(space), clause, leaf);
    assert forall|i: int| 0 <= i < apart.len() implies apart[i] != '"' by {
        lemma_unquoted_end(term, space, lone, word, i);
    }
    lemma_closed_by_space(apart, space);
    law_trailing_space_is_ignored(settings, apart, space);
}

proof fn lemma_unquoted_end(
    term: Seq<char>,
    space: char,
    middle: Seq<char>,
    word: Seq<char>,
    i: int,
)
    requires
        !term.contains('"'),
        whitespace(space),
        forall|k: int|
            0 <= k < middle.len() ==> (#[trigger] middle[k]) == '-' || whitespace(middle[k]),
        is_word(word),
        0 <= i < (term.push(space) + middle + word).len(),
    ensures
        (term.push(space) + middle + word)[i] != '"',
{
    let start = term.push(space);
    if i < term.len() {
        assert(term.contains(term[i]));
    } else if i < start.len() {
    } else if i < start.len() + middle.len() {
        assert((start + middle + word)[i] == middle[i - start.len()]);
    } else {
        assert((start + middle + word)[i] == word[i - start.len() - middle.len()]);
    }
}

/// A search for a single word finds what matches the word as it is.
pub proof fn law_word_finds_itself(
    settings: ParserSettings,
    word: Seq<char>,
    leaf: spec_fn(Tree) -> bool,
)
    requires
        is_word(word),
        word[0] != '-',
        !is_or(word),
        !is_and(word),
        substantial(settings, word),
    ensures
        finds(settings, word, leaf) <==> leaf(Tree::Exact(word)),
{
    let space = ' ';
    let none = Seq::<char>::empty();
    let clause = ClauseView { text: word, exclude: false, word: Some(false) };
    lemma_empty_term();
    law_word_has_to_match(none, word, space);
    assert(none + word.push(space) =~= word.push(space));
    assert(!word.contains('"'));
    lemma_closed_by_space(word, space);
    law_trailing_space_is_ignored(settings, word, space);
    let list = alternatives_of(word.push(space));
    assert(list =~= seq![Seq::<ClauseView>::empty().push(clause)]);
    law_search_matches(settings, None, word.push(space), leaf);
    let exact = Tree::Exact(word);
    assert(selects(exact, leaf) == leaf(exact));
    assert(list[0][0] == clause);
    assert(meets(settings, None, clause, leaf) == leaf(exact));
    if leaf(exact) {
        assert(meets_all(settings, None, list[0], leaf));
    }
}

/// A search with `or` finds what either of its sides finds.
pub proof fn law_search_for_either(
    settings: ParserSettings,
    fuzziness: Option<FuzzinessView>,
    a: Seq<char>,
    or: Seq<char>,
    space: char,
    b: Seq<char>,
    leaf: spec_fn(Tree) -> bool,
)
    requires
        closed_term(a),
        !dangling(a),
        is_or(or),
        whitespace(space),
    ensures
        selects(search_tree(settings, fuzziness, a + or.push(space) + b), leaf) <==> selects(
            search_tree(settings, fuzziness, a),
            leaf,
        ) || selects(search_tree(settings, fuzziness, b), leaf),
{
    let term = a + or.push(space) + b;
    let x = alternatives_of(a);
    let y = alternatives_of(b);
    law_or_separates(a, or, space, b);
    law_search_matches(settings, fuzziness, term, leaf);
    law_search_matches(settings, fuzziness, a, leaf);
    law_search_matches(settings, fuzziness, b, leaf);
    let all = alternatives_of(term);
    if selects(search_tree(settings, fuzziness, term), leaf) {
        let k = choose|k: int|
            0 <= k < all.len() && meets_all(settings, fuzziness, #[trigger] all[k], leaf);
        if k < x.len() {
            assert(all[k] == x[k]);
        } else {
            assert(all[k] == y[k - x.len()]);
        }
    }
    if selects(search_tree(settings, fuzziness, a), leaf) {
        let k = choose|k: int|
            0 <= k < x.len() && meets_all(settings, fuzziness, #[trigger] x[k], leaf);
        assert(all[k] == x[k]);
    }
    if selects(search_tree(settings, fuzziness, b), leaf) {
        let k = choose|k: int|
            0 <= k < y.len() && meets_all(settings, fuzziness, #[trigger] y[k], leaf);
        assert(all[x.len() + k] == y[k]);
    }
}

/// A search with `and` is the search without it.
pub proof fn law_search_without_and(
    settings: ParserSettings,
    fuzziness: Option<FuzzinessView>,
    a: Seq<char>,
    and: Seq<char>,
    space: char,
    b: Seq<char>,
)
    requires
        closed_term(a),
        !dangling(a),
        is_and(and),
        whitespace(space),
    ensures
        search_tree(settings, fuzziness, a + and.push(space) + b) == search_tree(
            settings,
            fuzziness,
            a + b,
        ),
{
    law_and_is_optional(a, and, space, b);
}

proof fn lemma_same_clause_parts(
    a: ParserSettings,
    fuzziness_a: Option<FuzzinessView>,
    b: ParserSettings,
    fuzziness_b: Option<FuzzinessView>,
    clauses: Seq<ClauseView>,
)
    requires
        forall|j: int|
            0 <= j < clauses.len() ==> clause_part(a, fuzziness_a, #[trigger] clauses[j])
                == clause_part(b, fuzziness_b, clauses[j]),
    ensures
        clause_parts(a, fuzziness_a, clauses) == clause_parts(b, fuzziness_b, clauses),
    decreases clauses.len(),
{
    if clauses.len() > 0 {
        let before = clauses.drop_last();
        assert forall|j: int| 0 <= j < before.len() implies clause_part(
            a,
            fuzziness_a,
            #[trigger] before[j],
        ) == clause_part(b, fuzziness_b, before[j]) by {
            assert(before[j] == clauses[j]);
        }
        lemma_same_clause_parts(a, fuzziness_a, b, fuzziness_b, before);
        assert(clauses[clauses.len() - 1] == clauses.last());
    }
}

/// Clauses with the same parts give the same query.
pub proof fn lemma_same_parts(
    a: ParserSettings,
    fuzziness_a: Option<FuzzinessView>,
    b: ParserSettings,
    fuzziness_b: Option<FuzzinessView>,
    list: Seq<Seq<ClauseView>>,
)
    requires
        forall|i: int, j: int|
            0 <= i < list.len() && 0 <= j < list[i].len() ==> clause_part(
                a,
                fuzziness_a,
                #[trigger] list[i][j],
            ) == clause_part(b, fuzziness_b, list[i][j]),
    ensures
        alternative_parts(a, fuzziness_a, list) == alternative_parts(b, fuzziness_b, list),
    decreases list.len(),
{
    if list.len() > 0 {
        let before = list.drop_last();
        assert forall|i: int, j: int|
            0 <= i < before.len() && 0 <= j < before[i].len() implies clause_part(
            a,
            fuzziness_a,
            #[trigger] before[i][j],
        ) == clause_part(b, fuzziness_b, before[i][j]) by {
            assert(before[i][j] == list[i][j]);
        }
        lemma_same_parts(a, fuzziness_a, b, fuzziness_b, before);
        let clauses = list.last();
        assert forall|j: int| 0 <= j < clauses.len() implies clause_part(
            a,
            fuzziness_a,
            #[trigger] clauses[j],
        ) == clause_part(b, fuzziness_b, clauses[j]) by {
            assert(clauses[j] == list[list.len() - 1][j]);
        }
        lemma_same_clause_parts(a, fuzziness_a, b, fuzziness_b, clauses);
    }
}

/// A term of phrases and excluded words alone is searched for in the same way
/// with and without fuzziness.
pub proof fn law_phrases_are_never_fuzzy(
    settings: ParserSettings,
    fuzziness: FuzzinessView,
    term: Seq<char>,
)
    requires
        forall|i: int, j: int|
            0 <= i < alternatives_of(term).len() && 0 <= j < alternatives_of(term)[i].len() ==> (
            #[trigger] alternatives_of(term)[i][j]).word is None || alternatives_of(
                term,
            )[i][j].exclude,
    ensures
        search_tree(settings, Some(fuzziness), term) == search_tree(settings, None, term),
{
    let list = alternatives_of(term);
    assert forall|i: int, j: int| 0 <= i < list.len() && 0 <= j < list[i].len() implies clause_part(
        settings,
        Some(fuzziness),
        #[trigger] list[i][j],
    ) == clause_part(settings, None, list[i][j]) by {
        law_exact_matches(settings, Some(fuzziness), list[i][j]);
    }
    lemma_same_parts(settings, Some(fuzziness), settings, None, list);
}

/// Where the last word of a term is complete, because whitespace or a quote
/// comes behind it, or because the term ends inside of quotes, it makes no
/// difference whether the last word may be a prefix.
pub proof fn law_complete_words_are_no_prefixes(
    settings: ParserSettings,
    fuzziness: FuzzinessView,
    prefix: bool,
    term: Seq<char>,
)
    requires
        term.len() == 0 || whitespace(term.last()) || term.last() == '"' || quote_parts(term).len()
            % 2 == 0,
    ensures
        search_tree(settings, Some(fuzziness), term) == search_tree(
            settings,
            Some(FuzzinessView { prefix, ..fuzziness }),
            term,
        ),
{
    let other = FuzzinessView { prefix, ..fuzziness };
    let list = alternatives_of(term);
    law_complete_words(term);
    assert forall|i: int, j: int| 0 <= i < list.len() && 0 <= j < list[i].len() implies clause_part(
        settings,
        Some(fuzziness),
        #[trigger] list[i][j],
    ) == clause_part(settings, Some(other), list[i][j]) by {
        let clause = list[i][j];
        if clause.word is Some && !clause.exclude {
            let tokens = analyzer_tokens(fuzziness.normalizer, clause.text);
            assert(clause.word == Some(false));
            assert(near_parts(fuzziness, tokens, false) =~= near_parts(other, tokens, false));
        }
    }
    lemma_same_parts(settings, Some(fuzziness), settings, Some(other), list);
}

/// How many typos a word may have: none up to 4 characters, one for 5 to 8,
/// and two from 9 on.
pub proof fn law_typos_by_length(length: nat)
    ensures
        length <= 4 ==> typos_of_length(length) == 0,
        5 <= length <= 8 ==> typos_of_length(length) == 1,
        9 <= length ==> typos_of_length(length) == 2,
{
}

/// If typos are switched off, nothing near a word has any.
pub proof fn law_typos_switched_off(
    fuzziness: FuzzinessView,
    tokens: Seq<Seq<char>>,
    last: bool,
    i: int,
)
    requires
        !fuzziness.typos,
        0 <= i < near_parts(fuzziness, tokens, last).len(),
    ensures
        near_parts(fuzziness, tokens, last)[i].1 matches Tree::Fuzzy { distance, .. } ==> distance
            == 0,
{
}

/// If typos and prefixes are switched off, a search is the one without any
/// fuzziness.
pub proof fn law_fuzziness_switched_off(
    settings: ParserSettings,
    fuzziness: FuzzinessView,
    term: Seq<char>,
)
    requires
        !fuzziness.typos,
        !fuzziness.prefix,
    ensures
        search_tree(settings, Some(fuzziness), term) == search_tree(settings, None, term),
{
    let list = alternatives_of(term);
    assert forall|i: int, j: int| 0 <= i < list.len() && 0 <= j < list[i].len() implies clause_part(
        settings,
        Some(fuzziness),
        #[trigger] list[i][j],
    ) == clause_part(settings, None, list[i][j]) by {
        let clause = list[i][j];
        if clause.word is Some && !clause.exclude {
            let last = clause.word->Some_0;
            let tokens = analyzer_tokens(fuzziness.normalizer, clause.text);
            let found = substantial(settings, clause.text);
            assert(near_parts(fuzziness, tokens, last) =~= seq![]);
            let parts = word_parts(clause.text, found, fuzziness, tokens, last);
            if found {
                assert(parts =~= seq![(Occur::Should, Tree::Exact(clause.text))]);
            } else {
                assert(parts =~= seq![]);
            }
        }
    }
    lemma_same_parts(settings, Some(fuzziness), settings, None, list);
}

/// What is near a word of one token: in each of the fields the token with the
/// typos that its length allows, if typos are switched on, as a prefix if the
/// user may still be typing it, prefixes are switched on and it has two
/// characters. A token without typos that is no prefix has nothing near it.
pub proof fn law_near_a_token(fuzziness: FuzzinessView, token: Seq<char>, last: bool, i: int)
    requires
        0 <= i < fuzziness.fields.len(),
    ensures
        ({
            let parts = near_parts(fuzziness, seq![token], last);
            let prefix = last && fuzziness.prefix && token.len() >= 2;
            let distance: int = if !fuzziness.typos || token.len() <= 4 {
                0
            } else if token.len() <= 8 {
                1
            } else {
                2
            };
            if prefix || distance > 0 {
                &&& parts.len() == fuzziness.fields.len()
                &&& parts[i].0 == Occur::Should
                &&& parts[i].1 matches Tree::Fuzzy { term, distance: d, prefix: p } && term.field
                    == fuzziness.fields[i] && term.text == token && d == distance && p == prefix
            } else {
                parts.len() == 0
            }
        }),
{
    assert(seq![token].last() == token);
}

/// What is near a word of several tokens: in each of the fields the phrase of
/// all tokens whose last one is a prefix, if the user may still be typing it,
/// prefixes are switched on and the last token has two characters.
pub proof fn law_near_several_tokens(
    fuzziness: FuzzinessView,
    tokens: Seq<Seq<char>>,
    last: bool,
    i: int,
)
    requires
        tokens.len() >= 2,
        0 <= i < fuzziness.fields.len(),
    ensures
        ({
            let parts = near_parts(fuzziness, tokens, last);
            if last && fuzziness.prefix && tokens.last().len() >= 2 {
                &&& parts.len() == fuzziness.fields.len()
                &&& parts[i].0 == Occur::Should
                &&& parts[i].1 matches Tree::PhrasePrefix(terms) && terms.len() == tokens.len()
                    && forall|k: int|
                    0 <= k < tokens.len() ==> (#[trigger] terms[k]).field == fuzziness.fields[i]
                        && terms[k].text == tokens[k]
            } else {
                parts.len() == 0
            }
        }),
{
}

/// Nothing is near a word without tokens.
pub proof fn law_near_nothing(fuzziness: FuzzinessView, last: bool)
    ensures
        near_parts(fuzziness, seq![], last).len() == 0,
{
}

/// A word that is not excluded has to match as it is, if there is anything to
/// match in it, or through what is near it.
pub proof fn law_word_matches_near_or_exactly(
    settings: ParserSettings,
    fuzziness: FuzzinessView,
    text: Seq<char>,
    last: bool,
    leaf: spec_fn(Tree) -> bool,
)
    ensures
        ({
            let near = near_parts(fuzziness, analyzer_tokens(fuzziness.normalizer, text), last);
            let part = clause_part(
                settings,
                Some(fuzziness),
                ClauseView { text, exclude: false, word: Some(last) },
            );
            if !substantial(settings, text) && near.len() == 0 {
                part is None
            } else {
                &&& part matches Some((occur, tree)) && occur == Occur::Must
                &&& selects(part->Some_0.1, leaf) <==> (substantial(settings, text) && leaf(
                    Tree::Exact(text),
                )) || exists|i: int| 0 <= i < near.len() && leaf((#[trigger] near[i]).1)
            }
        }),
{
    let tokens = analyzer_tokens(fuzziness.normalizer, text);
    let near = near_parts(fuzziness, tokens, last);
    let found = substantial(settings, text);
    let parts = word_parts(text, found, fuzziness, tokens, last);
    let exact = Tree::Exact(text);
    let first: int = if found {
        1
    } else {
        0
    };
    assert(parts.len() == first + near.len());
    assert(found ==> parts[0] == (Occur::Should, exact));
    assert(selects(exact, leaf) == leaf(exact));
    assert forall|i: int| 0 <= i < near.len() implies parts[first + i] == #[trigger] near[i]
        && near[i].0 == Occur::Should && selects(near[i].1, leaf) == leaf(near[i].1) by {}
    assert forall|i: int| 0 <= i < parts.len() implies (#[trigger] parts[i]).0 == Occur::Should by {
        if i >= first {
            assert(parts[first + (i - first)] == near[i - first]);
        }
    }
    if parts.len() > 0 {
        let tree = any_of(parts)->Some_0;
        if selects(tree, leaf) {
            let k: int = if parts.len() == 1 {
                0
            } else {
                choose|k: int|
                    0 <= k < parts.len() && (#[trigger] parts[k]).0 != Occur::MustNot && selects(
                        parts[k].1,
                        leaf,
                    )
            };
            assert(selects(parts[k].1, leaf));
            if k >= first {
                assert(parts[first + (k - first)] == near[k - first]);
                assert(leaf(near[k - first].1));
            }
        }
        if found && leaf(exact) {
            assert(selects(parts[0].1, leaf));
            assert(selects(tree, leaf));
        }
        if exists|i: int| 0 <= i < near.len() && leaf((#[trigger] near[i]).1) {
            let i = choose|i: int| 0 <= i < near.len() && leaf((#[trigger] near[i]).1);
            assert(selects(parts[first + i].1, leaf));
            assert(selects(tree, leaf));
        }
    }
}

/// A search for all words of two terms finds what both of them find.
pub proof fn law_search_for_all(
    settings: ParserSettings,
    a: Seq<char>,
    b: Seq<char>,
    leaf: spec_fn(Tree) -> bool,
)
    requires
        closed_term(a),
        !dangling(a),
        asks_for_something(settings, a),
        asks_for_something(settings, b),
    ensures
        finds(settings, a + b, leaf) <==> finds(settings, a, leaf) && finds(settings, b, leaf),
{
    law_terms_combine(a, b);
    law_search_matches(settings, None, a + b, leaf);
    law_search_matches(settings, None, a, leaf);
    law_search_matches(settings, None, b, leaf);
    let x = alternatives_of(a)[0];
    let y = alternatives_of(b)[0];
    let all = alternatives_of(a + b);
    assert(all =~= seq![x + y]);
    let z = all[0];
    if meets_all(settings, None, z, leaf) {
        assert forall|i: int| 0 <= i < x.len() implies meets(
            settings,
            None,
            #[trigger] x[i],
            leaf,
        ) by {
            assert(z[i] == x[i]);
        }
        assert forall|i: int| 0 <= i < y.len() implies meets(
            settings,
            None,
            #[trigger] y[i],
            leaf,
        ) by {
            assert(z[x.len() + i] == y[i]);
        }
        assert(meets_all(settings, None, x, leaf));
        assert(meets_all(settings, None, y, leaf));
    }
    if meets_all(settings, None, x, leaf) && meets_all(settings, None, y, leaf) {
        assert forall|i: int| 0 <= i < z.len() implies meets(
            settings,
            None,
            #[trigger] z[i],
            leaf,
        ) by {
            if i < x.len() {
                assert(z[i] == x[i]);
            } else {
                assert(z[i] == y[i - x.len()]);
            }
        }
        let j = choose|j: int|
            0 <= j < x.len() && !(#[trigger] x[j]).exclude && substantial(settings, x[j].text);
        assert(z[j] == x[j]);
        assert(meets_all(settings, None, z, leaf));
    }
}

/// Words and phrases without anything to match don't restrict a search.
pub proof fn law_empty_clauses_do_not_restrict(
    settings: ParserSettings,
    clauses: Seq<ClauseView>,
    clause: ClauseView,
)
    requires
        !substantial(settings, clause.text),
    ensures
        clause_parts(settings, None, clauses.push(clause)) == clause_parts(
            settings,
            None,
            clauses,
        ),
{
    assert(clauses.push(clause).drop_last() =~= clauses);
}

/// A search for nothing but exclusions, or for nothing at all, finds nothing.
pub proof fn law_exclusions_alone_find_nothing(
    settings: ParserSettings,
    term: Seq<char>,
    leaf: spec_fn(Tree) -> bool,
)
    requires
        forall|i: int, j: int|
            0 <= i < alternatives_of(term).len() && 0 <= j < alternatives_of(term)[i].len() ==> (
            #[trigger] alternatives_of(term)[i][j]).exclude || !substantial(
                settings,
                alternatives_of(term)[i][j].text,
            ),
    ensures
        !finds(settings, term, leaf),
{
    law_search_matches(settings, None, term, leaf);
    let list = alternatives_of(term);
    assert forall|k: int| 0 <= k < list.len() implies !meets_all(
        settings,
        None,
        #[trigger] list[k],
        leaf,
    ) by {
        assert forall|j: int| 0 <= j < list[k].len() && !(#[trigger] list[k][j]).exclude implies
            clause_part(settings, None, list[k][j]) is None by {}
    }
}

/// Where the parser looks for a text by its tokens, there is something to match
/// in the text if and only if a field to search cuts it into tokens.
pub proof fn law_texts_match_by_their_tokens(settings: ParserSettings, text: Seq<char>)
    requires
        parse_outcome(settings, quoted(text)) == Some(
            exists|i: int|
                0 <= i < settings.defaults.len() && analyzer_tokens(
                    #[trigger] default_analysis(settings, i),
                    text,
                ).len() > 0,
        ),
    ensures
        !refused(settings, text),
        plain(settings, text),
        substantial(settings, text) <==> exists|i: int|
            0 <= i < settings.defaults.len() && analyzer_tokens(
                #[trigger] default_analysis(settings, i),
                text,
            ).len() > 0,
{
}

/// A text without the backslash before each escaped character.
pub open spec fn unescaped(text: Seq<char>) -> Seq<char>
    decreases text.len(),
{
    if text.len() == 0 {
        seq![]
    } else if text[0] == '\\' && text.len() > 1 {
        seq![text[1]] + unescaped(text.skip(2))
    } else {
        seq![text[0]] + unescaped(text.skip(1))
    }
}

proof fn lemma_escaped_concat(a: Seq<char>, b: Seq<char>)
    ensures
        escaped(a + b) == escaped(a) + escaped(b),
    decreases b.len(),
{
    if b.len() == 0 {
        assert(a + b =~= a);
        assert(escaped(a) + escaped(b) =~= escaped(a));
    } else {
        lemma_escaped_concat(a, b.drop_last());
        assert((a + b).drop_last() =~= a + b.drop_last());
        assert(escaped(a + b) =~= escaped(a) + escaped(b));
    }
}

/// A text is quoted so that it is read back as it is.
pub proof fn law_quoted_text_is_read_back(text: Seq<char>)
    requires
        !text.contains('"'),
    ensures
        quoted(text).len() >= 2,
        quoted(text)[0] == '"',
        quoted(text).last() == '"',
        unescaped(quoted(text).subrange(1, quoted(text).len() - 1)) == text,
{
    assert(quoted(text).subrange(1, quoted(text).len() - 1) =~= escaped(text));
    lemma_unescaped(text);
}

proof fn lemma_unescaped(text: Seq<char>)
    ensures
        unescaped(escaped(text)) == text,
    decreases text.len(),
{
    if text.len() > 0 {
        let first = seq![text[0]];
        let rest = text.skip(1);
        assert(first + rest =~= text);
        lemma_escaped_concat(first, rest);
        lemma_unescaped(rest);
        assert(first.drop_last() =~= Seq::<char>::empty());
        assert(escaped(Seq::<char>::empty()) =~= seq![]);
        let e = escaped(text);
        if text[0] == '\\' {
            assert(escaped(first) =~= seq!['\\', '\\']);
            assert(e.skip(2) =~= escaped(rest));
            assert(unescaped(e) == seq![e[1]] + unescaped(e.skip(2)));
        } else {
            assert(escaped(first) =~= first);
            assert(e.skip(1) =~= escaped(rest));
            assert(unescaped(e) == seq![e[0]] + unescaped(e.skip(1)));
        }
        assert(unescaped(e) =~= text);
    } else {
        assert(escaped(text) =~= seq![]);
        assert(unescaped(escaped(text)) =~= text);
    }
}

/// Only backslashes are escaped, each by one more, wherever they stand.
pub proof fn law_only_backslashes_are_escaped(a: Seq<char>, b: Seq<char>)
    requires
        !a.contains('\\'),
    ensures
        quoted(a) == seq!['"'] + a + seq!['"'],
        escaped(a + seq!['\\'] + b) == a + seq!['\\', '\\'] + escaped(b),
{
    let one = seq!['\\'];
    lemma_plain_escaped(a);
    lemma_escaped_concat(a + one, b);
    lemma_escaped_concat(a, one);
    assert(one.drop_last() =~= Seq::<char>::empty());
    assert(escaped(Seq::<char>::empty()) =~= seq![]);
    assert(escaped(one) =~= seq!['\\', '\\']);
}

proof fn lemma_plain_escaped(text: Seq<char>)
    requires
        !text.contains('\\'),
    ensures
        escaped(text) == text,
    decreases text.len(),
{
    if text.len() > 0 {
        let before = text.drop_last();
        assert(text[text.len() - 1] != '\\');
        assert forall|i: int| 0 <= i < before.len() implies #[trigger] before[i] != '\\' by {
            assert(text[i] == before[i]);
        }
        lemma_plain_escaped(before);
        assert(escaped(text) =~= text);
    } else {
        assert(escaped(text) =~= text);
    }
}

/// What a word is matched by, in this order: the word as it is, and what is
/// near it. A single one of them stands alone.
pub proof fn law_word_is_one_clause(
    settings: ParserSettings,
    fuzziness: FuzzinessView,
    text: Seq<char>,
    last: bool,
)
    ensures
        ({
            let near = near_parts(fuzziness, analyzer_tokens(fuzziness.normalizer, text), last);
            let part = clause_part(
                settings,
                Some(fuzziness),
                ClauseView { text, exclude: false, word: Some(last) },
            );
            let exact = (Occur::Should, Tree::Exact(text));
            if substantial(settings, text) {
                part == Some(
                    (
                        Occur::Must,
                        if near.len() == 0 {
                            Tree::Exact(text)
                        } else {
                            Tree::Boolean(seq![exact] + near)
                        },
                    ),
                )
            } else if near.len() == 0 {
                part is None
            } else {
                part == Some(
                    (
                        Occur::Must,
                        if near.len() == 1 {
                            near[0].1
                        } else {
                            Tree::Boolean(near)
                        },
                    ),
                )
            }
        }),
{
    let tokens = analyzer_tokens(fuzziness.normalizer, text);
    let near = near_parts(fuzziness, tokens, last);
    let parts = word_parts(text, substantial(settings, text), fuzziness, tokens, last);
    if substantial(settings, text) {
        assert(parts =~= seq![(Occur::Should, Tree::Exact(text))] + near);
    } else {
        assert(parts =~= near);
    }
}

/// A phrase, or a word without fuzziness, has to match as it is, and an excluded
/// one must not. One without anything to match is left out.
pub proof fn law_clause_is_matched_as_it_is(
    settings: ParserSettings,
    fuzziness: Option<FuzzinessView>,
    clause: ClauseView,
)
    requires
        clause.word is None || clause.exclude || fuzziness is None,
    ensures
        clause_part(settings, fuzziness, clause) == if !substantial(settings, clause.text) {
            None
        } else if clause.exclude {
            Some((Occur::MustNot, Tree::Exact(clause.text)))
        } else {
            Some((Occur::Must, Tree::Exact(clause.text)))
        },
{
}

/// The view of fuzziness is its settings.
pub proof fn law_fuzziness_view(fuzziness: Fuzziness)
    ensures
        fuzziness_view(Some(&fuzziness)) matches Some(view) && view.fields == fuzziness.fields@
            && view.normalizer == fuzziness.normalizer@ && view.prefix == fuzziness.prefix
            && view.typos == fuzziness.typos,
        fuzziness_view(None) is None,
{
}

/// Each word or phrase of an alternative adds its own part, however often it
/// occurs, in the order of the term.
pub proof fn law_clauses_add_up(
    settings: ParserSettings,
    fuzziness: Option<FuzzinessView>,
    a: Seq<ClauseView>,
    clause: ClauseView,
    b: Seq<ClauseView>,
)
    ensures
        clause_parts(settings, fuzziness, a + seq![clause] + b) == clause_parts(
            settings,
            fuzziness,
            a,
        ) + match clause_part(settings, fuzziness, clause) {
            Some(part) => seq![part],
            None => seq![],
        } + clause_parts(settings, fuzziness, b),
    decreases b.len(),
{
    let all = a + seq![clause] + b;
    if b.len() == 0 {
        assert(all.drop_last() =~= a);
        assert(all.last() == clause);
        assert(clause_parts(settings, fuzziness, b) =~= seq![]);
    } else {
        law_clauses_add_up(settings, fuzziness, a, clause, b.drop_last());
        assert(all.drop_last() =~= a + seq![clause] + b.drop_last());
        assert(all.last() == b.last());
    }
    assert(clause_parts(settings, fuzziness, all) =~= clause_parts(settings, fuzziness, a)
        + match clause_part(settings, fuzziness, clause) {
        Some(part) => seq![part],
        None => seq![],
    } + clause_parts(settings, fuzziness, b));
}

/// Each alternative with anything to match adds its own part, however often it
/// occurs, in the order of the term.
pub proof fn law_alternatives_add_up(
    settings: ParserSettings,
    fuzziness: Option<FuzzinessView>,
    a: Seq<Seq<ClauseView>>,
    clauses: Seq<ClauseView>,
    b: Seq<Seq<ClauseView>>,
)
    ensures
        alternative_parts(settings, fuzziness, a + seq![clauses] + b) == alternative_parts(
            settings,
            fuzziness,
            a,
        ) + if clause_parts(settings, fuzziness, clauses).len() > 0 {
            seq![(Occur::Should, Tree::Boolean(clause_parts(settings, fuzziness, clauses)))]
        } else {
            seq![]
        } + alternative_parts(settings, fuzziness, b),
    decreases b.len(),
{
    let all = a + seq![clauses] + b;
    let here = if clause_parts(settings, fuzziness, clauses).len() > 0 {
        seq![(Occur::Should, Tree::Boolean(clause_parts(settings, fuzziness, clauses)))]
    } else {
        seq![]
    };
    if b.len() == 0 {
        assert(all.drop_last() =~= a);
        assert(all.last() == clauses);
        assert(alternative_parts(settings, fuzziness, b) =~= seq![]);
    } else {
        law_alternatives_add_up(settings, fuzziness, a, clauses, b.drop_last());
        assert(all.drop_last() =~= a + seq![clauses] + b.drop_last());
        assert(all.last() == b.last());
    }
    assert(alternative_parts(settings, fuzziness, all) =~= alternative_parts(
        settings,
        fuzziness,
        a,
    ) + here + alternative_parts(settings, fuzziness, b));
}

/// The query for a search term is the one for its only alternative, or for any
/// of several ones. Without any, nothing matches.
pub proof fn law_query_of_alternatives(
    settings: ParserSettings,
    fuzziness: Option<FuzzinessView>,
    term: Seq<char>,
)
    ensures
        ({
            let parts = alternative_parts(settings, fuzziness, alternatives_of(term));
            search_tree(settings, fuzziness, term) == if parts.len() == 0 {
                Tree::Empty
            } else if parts.len() == 1 {
                parts[0].1
            } else {
                Tree::Boolean(parts)
            }
        }),
{
}

/// A search for a text in quotes finds what matches the text as it is, and
/// nothing else.
pub proof fn law_phrase_finds_itself(
    settings: ParserSettings,
    text: Seq<char>,
    leaf: spec_fn(Tree) -> bool,
)
    requires
        !text.contains('"'),
        substantial(settings, text),
    ensures
        finds(settings, seq!['"'] + text + seq!['"'], leaf) <==> leaf(Tree::Exact(text)),
{
    lemma_phrase_finds(settings, text, leaf);
    assert(in_quotes(text) =~= seq!['"'] + text + seq!['"']);
}

} // verus!
