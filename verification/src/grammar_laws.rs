//! What the pieces of a search term promise.

use vstd::prelude::*;

use crate::grammar::alternative_views;
use crate::grammar::alternatives;
use crate::grammar::alternatives_of;
use crate::grammar::dashes;
use crate::grammar::excluded;
use crate::grammar::is_and;
use crate::grammar::is_or;
use crate::grammar::item_views;
use crate::grammar::items_of;
use crate::grammar::items_of_parts;
use crate::grammar::lemma_alternatives_nonempty;
use crate::grammar::lemma_dashes;
use crate::grammar::lemma_parts_unquoted;
use crate::grammar::only_dashes;
use crate::grammar::part_items;
use crate::grammar::quote_parts;
use crate::grammar::role;
use crate::grammar::stripped;
use crate::grammar::words;
use crate::grammar::Clause;
use crate::grammar::ClauseView;
use crate::grammar::Item;
use crate::grammar::ItemView;
use crate::grammar::Role;
use crate::text::whitespace;

verus! {

/// Two lists of lists behind each other, where the last list of the first one
/// goes on with the first list of the second one.
pub open spec fn glue<A>(x: Seq<Seq<A>>, y: Seq<Seq<A>>) -> Seq<Seq<A>> {
    x.drop_last().push(x.last() + y[0]) + y.skip(1)
}

/// Whether something can be put behind a term without changing it: all quotes
/// are closed, and so is the last word.
pub open spec fn closed_term(term: Seq<char>) -> bool {
    &&& quote_parts(term).len() % 2 == 1
    &&& term.len() == 0 || whitespace(term.last()) || term.last() == '"'
}

/// Whether a term ends with dashes, which exclude what comes behind them.
pub open spec fn dangling(term: Seq<char>) -> bool {
    items_of(term).len() > 0 && only_dashes(items_of(term).last())
}

proof fn lemma_parts_nonempty(term: Seq<char>)
    ensures
        quote_parts(term).len() > 0,
    decreases term.len(),
{
    if term.len() > 0 {
        lemma_parts_nonempty(term.drop_last());
    }
}

proof fn lemma_parts_glue(a: Seq<char>, b: Seq<char>)
    ensures
        quote_parts(a + b) == glue(quote_parts(a), quote_parts(b)),
    decreases b.len(),
{
    lemma_parts_nonempty(a);
    lemma_parts_nonempty(b);
    let x = quote_parts(a);
    let y = quote_parts(b);
    if b.len() == 0 {
        assert(a + b =~= a);
        assert(x.last() + y[0] =~= x.last());
        assert(glue(x, y) =~= x);
    } else {
        let c = b.last();
        lemma_parts_glue(a, b.drop_last());
        lemma_parts_nonempty(b.drop_last());
        assert((a + b).drop_last() =~= a + b.drop_last());
        let z = quote_parts(b.drop_last());
        let before = glue(x, z);
        if c == '"' {
            assert(y[0] == z[0]);
            assert(glue(x, y) =~= before.push(seq![]));
        } else if z.len() == 1 {
            assert(y[0] =~= z[0].push(c));
            assert(before.last() =~= x.last() + z[0]);
            assert(before.last().push(c) =~= x.last() + y[0]);
            assert(glue(x, y) =~= before.drop_last().push(before.last().push(c)));
        } else {
            assert(y[0] == z[0]);
            assert(before.last() == z.last());
            assert(glue(x, y) =~= before.drop_last().push(before.last().push(c)));
        }
    }
}

proof fn lemma_words_join(a: Seq<char>, b: Seq<char>)
    requires
        a.len() == 0 || whitespace(a.last()),
    ensures
        words(a + b) == words(a) + words(b),
    decreases b.len(),
{
    if b.len() == 0 {
        assert(a + b =~= a);
        assert(words(a) + words(b) =~= words(a));
    } else {
        lemma_words_join(a, b.drop_last());
        let all = a + b;
        assert(all.drop_last() =~= a + b.drop_last());
        let before = words(b.drop_last());
        if whitespace(b.last()) {
        } else if b.len() > 1 && !whitespace(b[b.len() - 2]) {
            lemma_open_word(b.drop_last());
            assert(all[all.len() - 2] == b[b.len() - 2]);
            assert(words(all) =~= words(a) + words(b));
        } else {
            if b.len() > 1 {
                assert(all[all.len() - 2] == b[b.len() - 2]);
            } else if a.len() > 0 {
                assert(all[all.len() - 2] == a.last());
            }
            assert(words(all) =~= words(a) + words(b));
        }
    }
}

/// A text that does not end with whitespace ends with a word.
proof fn lemma_open_word(text: Seq<char>)
    requires
        text.len() > 0,
        !whitespace(text.last()),
    ensures
        words(text).len() > 0,
{
}

/// A term without quotes is a single part.
proof fn lemma_one_part(text: Seq<char>)
    requires
        !text.contains('"'),
    ensures
        quote_parts(text) == seq![text],
    decreases text.len(),
{
    if text.len() == 0 {
        assert(text =~= seq![]);
    } else {
        assert(text.contains(text.last()));
        assert forall|i: int| 0 <= i < text.drop_last().len() implies text.drop_last()[i]
            != '"' by {
            assert(text.contains(text[i]));
        }
        lemma_one_part(text.drop_last());
        assert(quote_parts(text) =~= seq![text.drop_last().push(text.last())]);
        assert(text.drop_last().push(text.last()) =~= text);
    }
}

/// Whether a text is a word: not empty, and without whitespace and quotes.
pub open spec fn is_word(text: Seq<char>) -> bool {
    &&& text.len() > 0
    &&& forall|i: int| 0 <= i < text.len() ==> !whitespace(#[trigger] text[i]) && text[i] != '"'
}

proof fn lemma_one_word(text: Seq<char>)
    requires
        is_word(text),
    ensures
        words(text) == seq![text],
    decreases text.len(),
{
    let before = text.drop_last();
    assert(before.push(text.last()) =~= text);
    if before.len() == 0 {
        assert(text =~= seq![text.last()]);
        assert(words(before) =~= seq![]);
        assert(words(text) =~= seq![text]);
    } else {
        assert(is_word(before)) by {
            assert forall|i: int| 0 <= i < before.len() implies !whitespace(#[trigger] before[i])
                && before[i] != '"' by {
                assert(before[i] == text[i]);
            }
        }
        lemma_one_word(before);
        assert(text[text.len() - 2] == before.last());
        assert(words(text) =~= seq![before.push(text.last())]);
    }
}

/// The pieces of a term stay as they are when something is put behind it.
proof fn lemma_items_join(a: Seq<char>, b: Seq<char>)
    requires
        closed_term(a),
    ensures
        items_of(a + b) == items_of(a) + items_of(b),
{
    lemma_parts_nonempty(a);
    lemma_parts_nonempty(b);
    lemma_parts_glue(a, b);
    let x = quote_parts(a);
    let y = quote_parts(b);
    let n = x.len() as int;
    lemma_last_part(a);
    lemma_items_prefix(x, y, n - 1);
    lemma_items_seam(x, y);
    lemma_items_suffix(x, y, y.len() as int);
}

/// What comes behind the last quote of a term ends like the term.
proof fn lemma_last_part(term: Seq<char>)
    ensures
        quote_parts(term).len() > 0,
        quote_parts(term).last().len() > 0 ==> term.len() > 0 && quote_parts(term).last().last()
            == term.last() && term.last() != '"',
    decreases term.len(),
{
    lemma_parts_nonempty(term);
    if term.len() > 0 {
        lemma_parts_nonempty(term.drop_last());
    }
}

proof fn lemma_items_prefix(x: Seq<Seq<char>>, y: Seq<Seq<char>>, k: int)
    requires
        x.len() > 0,
        y.len() > 0,
        0 <= k < x.len(),
    ensures
        items_of_parts(glue(x, y), k) == items_of_parts(x, k),
    decreases k,
{
    if k > 0 {
        lemma_items_prefix(x, y, k - 1);
        assert(glue(x, y)[k - 1] == x[k - 1]);
        assert(part_items(glue(x, y), k - 1) =~= part_items(x, k - 1));
    }
}

/// The pieces of the part where two terms meet.
proof fn lemma_items_seam(x: Seq<Seq<char>>, y: Seq<Seq<char>>)
    requires
        x.len() % 2 == 1,
        y.len() > 0,
        x.last().len() == 0 || whitespace(x.last().last()),
    ensures
        part_items(glue(x, y), x.len() - 1) == part_items(x, x.len() - 1) + part_items(y, 0),
{
    let parts = glue(x, y);
    let i = x.len() - 1;
    let seam = x.last() + y[0];
    assert(parts[i] == seam);
    lemma_words_join(x.last(), y[0]);
    let first = words(x.last());
    let second = words(y[0]);
    let all = part_items(parts, i);
    let apart = part_items(x, i) + part_items(y, 0);
    assert(all.len() == apart.len());
    assert forall|j: int| 0 <= j < all.len() implies all[j] == apart[j] by {
        if y[0].len() > 0 {
            assert(seam.last() == y[0].last());
        } else {
            assert(seam =~= x.last());
        }
        if second.len() == 0 && y[0].len() > 0 && !whitespace(y[0].last()) {
            lemma_open_word(y[0]);
        }
        if j < first.len() {
            assert(words(seam)[j] == first[j]);
            assert(x.last().len() > 0);
        } else {
            assert(words(seam)[j] == second[j - first.len()]);
            assert(y[0].len() > 0);
        }
    }
    assert(all =~= apart);
}

proof fn lemma_items_suffix(x: Seq<Seq<char>>, y: Seq<Seq<char>>, k: int)
    requires
        x.len() % 2 == 1,
        1 <= k <= y.len(),
        items_of_parts(glue(x, y), x.len() - 1) == items_of_parts(x, x.len() - 1),
        part_items(glue(x, y), x.len() - 1) == part_items(x, x.len() - 1) + part_items(y, 0),
    ensures
        items_of_parts(glue(x, y), x.len() - 1 + k) == items_of_parts(x, x.len() as int)
            + items_of_parts(y, k),
    decreases k,
{
    let parts = glue(x, y);
    let n = x.len() as int;
    if k == 1 {
        assert(items_of_parts(y, 0) =~= seq![]);
        assert(items_of_parts(parts, n) =~= items_of_parts(x, n) + items_of_parts(y, 1));
    } else {
        lemma_items_suffix(x, y, k - 1);
        assert(parts[n - 2 + k] == y[k - 1]);
        assert(part_items(parts, n - 2 + k) =~= part_items(y, k - 1));
        assert(items_of_parts(parts, n - 1 + k) =~= items_of_parts(x, n) + items_of_parts(y, k));
    }
}

proof fn lemma_alternatives_prefix(a: Seq<ItemView>, b: Seq<ItemView>, n: int)
    requires
        0 <= n <= a.len(),
    ensures
        alternatives(a + b, n) == alternatives(a, n),
    decreases n,
{
    if n > 0 {
        lemma_alternatives_prefix(a, b, n - 1);
        assert((a + b)[n - 1] == a[n - 1]);
        if n > 1 {
            assert((a + b)[n - 2] == a[n - 2]);
        }
    }
}

proof fn lemma_alternatives_glue(a: Seq<ItemView>, b: Seq<ItemView>, n: int)
    requires
        a.len() == 0 || !only_dashes(a.last()),
        0 <= n <= b.len(),
    ensures
        alternatives(a + b, a.len() + n) == glue(
            alternatives(a, a.len() as int),
            alternatives(b, n),
        ),
    decreases n,
{
    let x = alternatives(a, a.len() as int);
    lemma_alternatives_nonempty(a, a.len() as int);
    lemma_alternatives_nonempty(b, n);
    if n == 0 {
        lemma_alternatives_prefix(a, b, a.len() as int);
        assert(x.last() + Seq::<ClauseView>::empty() =~= x.last());
        assert(glue(x, alternatives(b, 0)) =~= x);
    } else {
        lemma_alternatives_glue(a, b, n - 1);
        lemma_alternatives_nonempty(b, n - 1);
        let all = a + b;
        let i = a.len() + n - 1;
        assert(all[i] == b[n - 1]);
        if n > 1 {
            assert(all[i - 1] == b[n - 2]);
        } else if a.len() > 0 {
            assert(all[i - 1] == a.last());
        }
        assert(role(all, i) == role(b, n - 1));
        let y = alternatives(b, n - 1);
        let before = glue(x, y);
        match role(b, n - 1) {
            Role::Skip => {},
            Role::Or => {
                assert(glue(x, y.push(seq![])) =~= before.push(seq![]));
            },
            Role::Clause(clause) => {
                let more = y.drop_last().push(y.last().push(clause));
                if y.len() == 1 {
                    assert(more[0] =~= y[0].push(clause));
                    assert(before.last() =~= x.last() + y[0]);
                    assert(before.last().push(clause) =~= x.last() + more[0]);
                } else {
                    assert(more[0] == y[0]);
                    assert(before.last() == y.last());
                }
                assert(glue(x, more) =~= before.drop_last().push(before.last().push(clause)));
            },
        }
    }
}

/// A term means what its parts mean: the last alternative of the first part
/// goes on with the first alternative of the second part.
pub proof fn law_terms_combine(a: Seq<char>, b: Seq<char>)
    requires
        closed_term(a),
        !dangling(a),
    ensures
        alternatives_of(a + b) == glue(alternatives_of(a), alternatives_of(b)),
{
    lemma_items_join(a, b);
    lemma_alternatives_glue(items_of(a), items_of(b), items_of(b).len() as int);
}

/// A word with whitespace behind it is a single piece.
proof fn lemma_word_item(word: Seq<char>, space: char)
    requires
        is_word(word),
        whitespace(space),
    ensures
        items_of(word.push(space)) == seq![ItemView::Word { text: word, last: false }],
        closed_term(word.push(space)),
{
    let text = word.push(space);
    assert forall|i: int| 0 <= i < text.len() implies text[i] != '"' by {
        if i < word.len() {
            assert(text[i] == word[i]);
        }
    }
    lemma_one_part(text);
    lemma_one_word(word);
    assert(text.drop_last() =~= word);
    let parts = seq![text];
    reveal_with_fuel(items_of_parts, 2);
    assert(items_of_parts(parts, 0) =~= seq![]);
    assert(part_items(parts, 0) =~= seq![ItemView::Word { text: word, last: false }]);
    assert(items_of(text) =~= part_items(parts, 0));
}

proof fn lemma_dash_count(word: Seq<char>)
    requires
        word.len() > 0,
        word[0] != '-',
    ensures
        dashes(word) == 0,
        stripped(word) == word,
{
    assert(word.skip(0) =~= word);
}

/// Some alternatives, where one more clause belongs to the last of them.
pub open spec fn with_clause(list: Seq<Seq<ClauseView>>, clause: ClauseView) -> Seq<
    Seq<ClauseView>,
> {
    list.drop_last().push(list.last().push(clause))
}

/// `or` separates alternatives, in upper or lower case.
pub proof fn law_or_separates(a: Seq<char>, or: Seq<char>, space: char, b: Seq<char>)
    requires
        closed_term(a),
        !dangling(a),
        is_or(or),
        whitespace(space),
    ensures
        alternatives_of(a + or.push(space) + b) == alternatives_of(a) + alternatives_of(b),
{
    let word = or.push(space);
    lemma_word_item(or, space);
    lemma_dash_count(or);
    let items = items_of(word);
    lemma_alternatives_nonempty(items_of(a), items_of(a).len() as int);
    lemma_alternatives_nonempty(items_of(b), items_of(b).len() as int);
    reveal_with_fuel(alternatives, 2);
    assert(role(items, 0) == Role::Or);
    assert(alternatives_of(word) =~= seq![seq![], seq![]]);
    law_terms_combine(a, word);
    let x = alternatives_of(a);
    let y = alternatives_of(b);
    assert(x.last() + Seq::<ClauseView>::empty() =~= x.last());
    assert(alternatives_of(a + word) =~= x.push(seq![]));
    lemma_closed_join(a, word);
    law_terms_combine(a + word, b);
    assert(Seq::<ClauseView>::empty() + y[0] =~= y[0]);
    assert(glue(x.push(seq![]), y) =~= x + y);
}

/// Two closed terms are closed behind each other, and end like the second.
proof fn lemma_closed_join(a: Seq<char>, b: Seq<char>)
    requires
        closed_term(a),
        closed_term(b),
        b.len() > 0,
        items_of(b).len() > 0,
        !only_dashes(items_of(b).last()),
    ensures
        closed_term(a + b),
        !dangling(a + b),
{
    lemma_parts_nonempty(a);
    lemma_parts_nonempty(b);
    lemma_parts_glue(a, b);
    lemma_items_join(a, b);
    assert((a + b).last() == b.last());
}

/// `and` is optional, in upper or lower case.
pub proof fn law_and_is_optional(a: Seq<char>, and: Seq<char>, space: char, b: Seq<char>)
    requires
        closed_term(a),
        !dangling(a),
        is_and(and),
        whitespace(space),
    ensures
        alternatives_of(a + and.push(space) + b) == alternatives_of(a + b),
{
    let word = and.push(space);
    lemma_word_item(and, space);
    lemma_dash_count(and);
    lemma_alternatives_nonempty(items_of(a), items_of(a).len() as int);
    reveal_with_fuel(alternatives, 2);
    assert(role(items_of(word), 0) == Role::Skip);
    assert(alternatives_of(word) =~= seq![seq![]]);
    law_terms_combine(a, word);
    let x = alternatives_of(a);
    assert(x.last() + Seq::<ClauseView>::empty() =~= x.last());
    assert(alternatives_of(a + word) =~= x);
    lemma_closed_join(a, word);
    law_terms_combine(a + word, b);
    law_terms_combine(a, b);
}

/// What a term means with one more piece behind it.
proof fn lemma_one_item(a: Seq<char>, b: Seq<char>, item: ItemView)
    requires
        closed_term(a),
        items_of(b) == seq![item],
    ensures
        items_of(a + b) == items_of(a).push(item),
        alternatives_of(a + b) == match role(items_of(a).push(item), items_of(a).len() as int) {
            Role::Skip => alternatives_of(a),
            Role::Or => alternatives_of(a).push(seq![]),
            Role::Clause(clause) => with_clause(alternatives_of(a), clause),
        },
{
    let items = items_of(a);
    lemma_items_join(a, b);
    assert(items + seq![item] =~= items.push(item));
    lemma_alternatives_prefix(items, seq![item], items.len() as int);
}

/// Any other word has to match.
pub proof fn law_word_has_to_match(a: Seq<char>, word: Seq<char>, space: char)
    requires
        closed_term(a),
        !dangling(a),
        is_word(word),
        word[0] != '-',
        !is_or(word),
        !is_and(word),
        whitespace(space),
    ensures
        alternatives_of(a + word.push(space)) == with_clause(
            alternatives_of(a),
            ClauseView { text: word, exclude: false, word: Some(false) },
        ),
{
    lemma_word_item(word, space);
    lemma_dash_count(word);
    lemma_one_item(a, word.push(space), ItemView::Word { text: word, last: false });
}

/// Some dashes in a row.
pub open spec fn dash_run(n: nat) -> Seq<char> {
    Seq::new(n, |i: int| '-')
}

/// The dashes before a word do not belong to it.
proof fn lemma_dashed(n: nat, word: Seq<char>)
    requires
        word.len() == 0 || word[0] != '-',
        word.len() == 0 || is_word(word),
        n + word.len() > 0,
    ensures
        is_word(dash_run(n) + word),
        dashes(dash_run(n) + word) == n,
        stripped(dash_run(n) + word) == word,
{
    let dashed = dash_run(n) + word;
    assert forall|i: int| 0 <= i < dashed.len() implies !whitespace(#[trigger] dashed[i])
        && dashed[i] != '"' by {
        if i >= n {
            assert(dashed[i] == word[i - n]);
        }
    }
    if word.len() > 0 {
        assert(dashed[n as int] == word[0]);
    }
    lemma_dashes(dashed, n as int);
    assert(dashed.skip(n as int) =~= word);
}

/// Leading dashes exclude a word, even one that is `or` or `and`, and so do
/// dashes of their own before it.
pub proof fn law_dash_excludes_word(a: Seq<char>, n: nat, word: Seq<char>, space: char)
    requires
        closed_term(a),
        n > 0 || dangling(a),
        is_word(word),
        word[0] != '-',
        whitespace(space),
    ensures
        alternatives_of(a + dash_run(n) + word.push(space)) == with_clause(
            alternatives_of(a),
            ClauseView { text: word, exclude: true, word: Some(false) },
        ),
{
    let dashed = dash_run(n) + word;
    lemma_dashed(n, word);
    lemma_word_item(dashed, space);
    lemma_one_item(a, dashed.push(space), ItemView::Word { text: dashed, last: false });
    assert(a + dash_run(n) + word.push(space) =~= a + dashed.push(space));
}

/// Dashes of their own mean nothing in themselves, and wait for what comes
/// next.
pub proof fn law_lone_dash(a: Seq<char>, n: nat, space: char)
    requires
        closed_term(a),
        n > 0,
        whitespace(space),
    ensures
        alternatives_of(a + dash_run(n).push(space)) == alternatives_of(a),
        closed_term(a + dash_run(n).push(space)),
        dangling(a + dash_run(n).push(space)),
{
    let dash = dash_run(n);
    let text = dash.push(space);
    lemma_dashed(n, seq![]);
    assert(dash + Seq::<char>::empty() =~= dash);
    lemma_word_item(dash, space);
    lemma_one_item(a, text, ItemView::Word { text: dash, last: false });
    lemma_parts_nonempty(a);
    lemma_parts_nonempty(text);
    lemma_parts_glue(a, text);
    assert((a + text).last() == space);
}

/// Text in double quotes is a phrase that has to match.
pub proof fn law_quotes_make_a_phrase(a: Seq<char>, text: Seq<char>)
    requires
        closed_term(a),
        !dangling(a),
        !text.contains('"'),
    ensures
        alternatives_of(a + seq!['"'] + text.push('"')) == with_clause(
            alternatives_of(a),
            ClauseView { text, exclude: false, word: None },
        ),
{
    lemma_phrase_item(a, text);
    assert(a + seq!['"'] + text.push('"') =~= a + (seq!['"'] + text.push('"')));
}

proof fn lemma_phrase_item(a: Seq<char>, text: Seq<char>)
    requires
        closed_term(a),
        !text.contains('"'),
    ensures
        alternatives_of(a + (seq!['"'] + text.push('"'))) == with_clause(
            alternatives_of(a),
            ClauseView { text, exclude: dangling(a), word: None },
        ),
{
    let quoted = seq!['"'] + text.push('"');
    lemma_quoted_items(seq![], text);
    assert(words(seq![]) =~= seq![]);
    assert(part_items(seq![seq![], text, seq![]], 0) =~= seq![]);
    assert(seq![] + quoted =~= quoted);
    assert(items_of(quoted) =~= seq![ItemView::Phrase(text)]);
    lemma_one_item(a, quoted, ItemView::Phrase(text));
}

/// The pieces of a text in quotes behind another text.
proof fn lemma_quoted_items(before: Seq<char>, text: Seq<char>)
    requires
        !before.contains('"'),
        !text.contains('"'),
    ensures
        items_of(before + (seq!['"'] + text.push('"'))) == part_items(
            seq![before, text, seq![]],
            0,
        ).push(ItemView::Phrase(text)),
{
    let term = before + (seq!['"'] + text.push('"'));
    let parts = seq![before, text, seq![]];
    lemma_one_part(before);
    lemma_one_part(text);
    let open = before.push('"');
    assert(open.drop_last() =~= before);
    assert(quote_parts(open) =~= seq![before, seq![]]);
    lemma_parts_glue(open, text);
    assert(Seq::<char>::empty() + text =~= text);
    assert(quote_parts(open + text) =~= seq![before, text]);
    assert(term.drop_last() =~= open + text);
    assert(quote_parts(term) =~= parts);
    reveal_with_fuel(items_of_parts, 4);
    assert(words(seq![]) =~= seq![]);
    assert(part_items(parts, 2) =~= seq![]);
    assert(items_of(term) =~= part_items(parts, 0).push(ItemView::Phrase(text)));
}

/// Dashes before the quotes exclude the phrase, and so do dashes of their own.
pub proof fn law_dash_excludes_phrase(a: Seq<char>, n: nat, text: Seq<char>)
    requires
        closed_term(a),
        n > 0 || dangling(a),
        !text.contains('"'),
    ensures
        alternatives_of(a + dash_run(n) + (seq!['"'] + text.push('"'))) == with_clause(
            alternatives_of(a),
            ClauseView { text, exclude: true, word: None },
        ),
{
    let dash = dash_run(n);
    let quoted = seq!['"'] + text.push('"');
    if n == 0 {
        assert(a + dash + quoted =~= a + quoted);
        lemma_phrase_item(a, text);
    } else {
        lemma_dashed(n, seq![]);
        assert(dash + Seq::<char>::empty() =~= dash);
        assert(!dash.contains('"'));
        lemma_quoted_items(dash, text);
        lemma_one_word(dash);
        let parts = seq![dash, text, seq![]];
        let word = ItemView::Word { text: dash, last: false };
        let phrase = ItemView::Phrase(text);
        assert(part_items(parts, 0) =~= seq![word]);
        assert(items_of(dash + quoted) =~= seq![word, phrase]);
        lemma_items_join(a, dash + quoted);
        let before = items_of(a);
        let items = before + seq![word, phrase];
        let k = before.len() as int;
        assert(a + dash + quoted =~= a + (dash + quoted));
        assert(items[k] == word && items[k + 1] == phrase);
        lemma_alternatives_prefix(before, seq![word, phrase], k);
        assert(only_dashes(items[k]));
        assert(excluded(items, k + 1));
        assert(alternatives(items, k + 1) == alternatives(items, k));
        assert(role(items, k + 1) == Role::Clause(
            ClauseView { text, exclude: true, word: None },
        ));
        assert(alternatives(items, k + 2) == with_clause(
            alternatives(items, k),
            ClauseView { text, exclude: true, word: None },
        ));
    }
}

proof fn lemma_parts_of_phrase(before: Seq<char>, rest: Seq<char>)
    requires
        !rest.contains('"'),
    ensures
        quote_parts(before.push('"') + rest) == quote_parts(before).push(rest),
    decreases rest.len(),
{
    let term = before.push('"') + rest;
    if rest.len() == 0 {
        assert(term =~= before.push('"'));
        assert(term.drop_last() =~= before);
        assert(rest =~= seq![]);
    } else {
        assert(rest.contains(rest.last()));
        assert forall|i: int| 0 <= i < rest.drop_last().len() implies rest.drop_last()[i]
            != '"' by {
            assert(rest.contains(rest[i]));
        }
        lemma_parts_of_phrase(before, rest.drop_last());
        assert(term.drop_last() =~= before.push('"') + rest.drop_last());
        let parts = quote_parts(before).push(rest.drop_last());
        assert(parts.drop_last() =~= quote_parts(before));
        assert(rest.drop_last().push(rest.last()) =~= rest);
    }
}

/// Text behind an opening quote is a phrase up to the end of the term, also
/// if the quote is never closed. `before` closes all of its quotes.
pub proof fn law_unclosed_quote_is_a_phrase(before: Seq<char>, rest: Seq<char>)
    requires
        quote_parts(before).len() % 2 == 1,
        !rest.contains('"'),
    ensures
        items_of(before.push('"') + rest).len() > 0,
        items_of(before.push('"') + rest).last() == ItemView::Phrase(rest),
{
    lemma_parts_of_phrase(before, rest);
    let parts = quote_parts(before).push(rest);
    assert(part_items(parts, parts.len() - 1) == seq![ItemView::Phrase(rest)]);
}

proof fn lemma_same_items(parts: Seq<Seq<char>>, n: int)
    requires
        0 <= n <= parts.len(),
        parts.len() % 2 == 0,
    ensures
        items_of_parts(parts.push(seq![]), n) == items_of_parts(parts, n),
    decreases n,
{
    if n > 0 {
        lemma_same_items(parts, n - 1);
        assert(part_items(parts.push(seq![]), n - 1) =~= part_items(parts, n - 1));
    }
}

/// To close the last quote of a term makes no difference.
pub proof fn law_closing_the_last_quote(term: Seq<char>)
    requires
        quote_parts(term).len() % 2 == 0,
    ensures
        items_of(term.push('"')) == items_of(term),
        alternatives_of(term.push('"')) == alternatives_of(term),
{
    let parts = quote_parts(term);
    assert(term.push('"').drop_last() =~= term);
    assert(quote_parts(term.push('"')) == parts.push(seq![]));
    let longer = parts.push(seq![]);
    lemma_same_items(parts, parts.len() as int);
    assert(words(seq![]) =~= seq![]);
    assert(part_items(longer, longer.len() - 1) =~= seq![]);
    assert(items_of(term.push('"')) =~= items_of(term));
}

/// An unclosed quote makes the rest of the term a phrase. It has to match,
/// unless dashes before it exclude it.
pub proof fn law_unclosed_quote(a: Seq<char>, rest: Seq<char>)
    requires
        closed_term(a),
        !rest.contains('"'),
    ensures
        alternatives_of(a + seq!['"'] + rest) == with_clause(
            alternatives_of(a),
            ClauseView { text: rest, exclude: dangling(a), word: None },
        ),
{
    let term = a + seq!['"'] + rest;
    lemma_parts_of_phrase(a, rest);
    assert(a.push('"') + rest =~= term);
    law_closing_the_last_quote(term);
    lemma_phrase_item(a, rest);
    assert(term.push('"') =~= a + (seq!['"'] + rest.push('"')));
}

/// Whether two lists of clauses are alike: they only differ in which word the
/// user may still be typing.
pub open spec fn alike(x: Seq<ClauseView>, y: Seq<ClauseView>) -> bool {
    &&& x.len() == y.len()
    &&& forall|i: int|
        0 <= i < x.len() ==> (#[trigger] x[i]).text == y[i].text && x[i].exclude == y[i].exclude
}

/// Whether two lists of alternatives are alike.
pub open spec fn all_alike(x: Seq<Seq<ClauseView>>, y: Seq<Seq<ClauseView>>) -> bool {
    &&& x.len() == y.len()
    &&& forall|i: int| 0 <= i < x.len() ==> alike(#[trigger] x[i], y[i])
}

/// Whether two pieces only differ in whether the user may still be typing.
spec fn same_piece(x: ItemView, y: ItemView) -> bool {
    match (x, y) {
        (ItemView::Phrase(a), ItemView::Phrase(b)) => a == b,
        (ItemView::Word { text: a, .. }, ItemView::Word { text: b, .. }) => a == b,
        _ => false,
    }
}

proof fn lemma_alternatives_alike(x: Seq<ItemView>, y: Seq<ItemView>, n: int)
    requires
        x.len() == y.len(),
        0 <= n <= x.len(),
        forall|i: int| 0 <= i < x.len() ==> same_piece(#[trigger] x[i], y[i]),
    ensures
        all_alike(alternatives(x, n), alternatives(y, n)),
    decreases n,
{
    if n > 0 {
        lemma_alternatives_alike(x, y, n - 1);
        lemma_alternatives_nonempty(x, n - 1);
        lemma_alternatives_nonempty(y, n - 1);
        assert(same_piece(x[n - 1], y[n - 1]));
        if n > 1 {
            assert(same_piece(x[n - 2], y[n - 2]));
        }
        let a = alternatives(x, n - 1);
        let b = alternatives(y, n - 1);
        assert(alike(a[a.len() - 1], b[b.len() - 1]));
    }
}

/// Whitespace behind a term only tells that the last word is complete.
pub proof fn law_trailing_space(term: Seq<char>, space: char)
    requires
        quote_parts(term).len() % 2 == 1,
        whitespace(space),
    ensures
        all_alike(alternatives_of(term.push(space)), alternatives_of(term)),
{
    let longer = term.push(space);
    let x = quote_parts(longer);
    let y = quote_parts(term);
    let n = y.len() - 1;
    assert(longer.drop_last() =~= term);
    assert(x == y.drop_last().push(y.last().push(space)));
    assert(x.drop_last() =~= y.drop_last());
    lemma_items_same(x, y, n);
    assert(y.last().push(space).drop_last() =~= y.last());
    assert(words(x[n]) == words(y[n]));
    let a = items_of(longer);
    let b = items_of(term);
    let before = items_of_parts(y, n);
    assert(a == before + part_items(x, n));
    assert(b == before + part_items(y, n));
    assert forall|i: int| 0 <= i < a.len() implies same_piece(#[trigger] a[i], b[i]) by {
        if i >= before.len() {
            assert(a[i] == part_items(x, n)[i - before.len()]);
            assert(b[i] == part_items(y, n)[i - before.len()]);
        }
    }
    lemma_alternatives_alike(a, b, a.len() as int);
}

/// The pieces of all parts but the last one do not depend on the last one.
proof fn lemma_items_same(x: Seq<Seq<char>>, y: Seq<Seq<char>>, k: int)
    requires
        x.len() == y.len(),
        0 <= k < x.len(),
        x.drop_last() == y.drop_last(),
    ensures
        items_of_parts(x, k) == items_of_parts(y, k),
    decreases k,
{
    if k > 0 {
        lemma_items_same(x, y, k - 1);
        assert(x[k - 1] == x.drop_last()[k - 1]);
        assert(y[k - 1] == y.drop_last()[k - 1]);
        assert(part_items(x, k - 1) =~= part_items(y, k - 1));
    }
}

/// An empty term asks for nothing.
pub proof fn lemma_empty_term()
    ensures
        closed_term(seq![]),
        !dangling(seq![]),
        alternatives_of(seq![]) == seq![Seq::<ClauseView>::empty()],
{
    let none = Seq::<char>::empty();
    assert(words(none) =~= seq![]);
    reveal_with_fuel(items_of_parts, 2);
    assert(part_items(seq![none], 0) =~= seq![]);
    assert(items_of(none) =~= seq![]);
}

/// A term without quotes is closed once whitespace comes behind it.
pub proof fn lemma_closed_by_space(term: Seq<char>, space: char)
    requires
        !term.contains('"'),
        whitespace(space),
    ensures
        quote_parts(term).len() == 1,
        closed_term(term.push(space)),
{
    let longer = term.push(space);
    assert forall|i: int| 0 <= i < longer.len() implies longer[i] != '"' by {
        if i < term.len() {
            assert(term.contains(term[i]));
        }
    }
    lemma_one_part(term);
    lemma_one_part(longer);
}

proof fn lemma_items_complete(parts: Seq<Seq<char>>, n: int)
    requires
        0 <= n <= parts.len(),
        parts.len() > 0,
        parts.len() % 2 == 0 || parts.last().len() == 0 || whitespace(parts.last().last()),
    ensures
        forall|k: int|
            0 <= k < items_of_parts(parts, n).len() ==> ((#[trigger] items_of_parts(
                parts,
                n,
            )[k]) matches ItemView::Word { last, .. } ==> !last),
    decreases n,
{
    if n > 0 {
        lemma_items_complete(parts, n - 1);
        let before = items_of_parts(parts, n - 1);
        let new = part_items(parts, n - 1);
        let all = items_of_parts(parts, n);
        assert forall|k: int| 0 <= k < all.len() implies ((
        #[trigger] all[k]) matches ItemView::Word { last, .. } ==> !last) by {
            if k < before.len() {
                assert(all[k] == before[k]);
            } else {
                assert(all[k] == new[k - before.len()]);
                if n == parts.len() && parts.last().len() == 0 {
                    assert(words(parts[n - 1]).len() == 0);
                }
            }
        }
    }
}

proof fn lemma_clauses_complete(items: Seq<ItemView>, n: int)
    requires
        0 <= n <= items.len(),
        forall|k: int|
            0 <= k < items.len() ==> ((#[trigger] items[k]) matches ItemView::Word { last, .. }
                ==> !last),
    ensures
        forall|i: int, j: int|
            0 <= i < alternatives(items, n).len() && 0 <= j < alternatives(items, n)[i].len()
                ==> (#[trigger] alternatives(items, n)[i][j]).word != Some(true),
    decreases n,
{
    if n > 0 {
        lemma_clauses_complete(items, n - 1);
        lemma_alternatives_nonempty(items, n - 1);
        let before = alternatives(items, n - 1);
        let all = alternatives(items, n);
        assert(items[n - 1] matches ItemView::Word { last, .. } ==> !last);
        assert forall|i: int, j: int| 0 <= i < all.len() && 0 <= j < all[i].len() implies (
        #[trigger] all[i][j]).word != Some(true) by {
            if i < before.len() && j < before[i].len() {
                assert(all[i][j] == before[i][j]);
            }
        }
    }
}

/// The user is done with every word of a term that ends with whitespace, with
/// a quote or inside of quotes.
pub proof fn law_complete_words(term: Seq<char>)
    requires
        term.len() == 0 || whitespace(term.last()) || term.last() == '"' || quote_parts(term).len()
            % 2 == 0,
    ensures
        forall|i: int, j: int|
            0 <= i < alternatives_of(term).len() && 0 <= j < alternatives_of(term)[i].len() ==> (
            #[trigger] alternatives_of(term)[i][j]).word != Some(true),
{
    let parts = quote_parts(term);
    lemma_last_part(term);
    lemma_items_complete(parts, parts.len() as int);
    lemma_clauses_complete(items_of(term), items_of(term).len() as int);
}

/// `or` is one of four words: these two letters in upper or lower case.
pub proof fn law_words_for_or(word: Seq<char>)
    ensures
        is_or(word) <==> word == "or"@ || word == "Or"@ || word == "oR"@ || word == "OR"@,
{
    reveal_strlit("or");
    reveal_strlit("Or");
    reveal_strlit("oR");
    reveal_strlit("OR");
    if is_or(word) {
        assert(word =~= seq![word[0], word[1]]);
        assert("or"@ =~= seq!['o', 'r']);
        assert("Or"@ =~= seq!['O', 'r']);
        assert("oR"@ =~= seq!['o', 'R']);
        assert("OR"@ =~= seq!['O', 'R']);
    }
}

/// `and` is one of eight words: these three letters in upper or lower case.
pub proof fn law_words_for_and(word: Seq<char>)
    ensures
        is_and(word) <==> word == "and"@ || word == "And"@ || word == "aNd"@ || word == "anD"@
            || word == "ANd"@ || word == "AnD"@ || word == "aND"@ || word == "AND"@,
{
    reveal_strlit("and");
    reveal_strlit("And");
    reveal_strlit("aNd");
    reveal_strlit("anD");
    reveal_strlit("ANd");
    reveal_strlit("AnD");
    reveal_strlit("aND");
    reveal_strlit("AND");
    if is_and(word) {
        assert(word =~= seq![word[0], word[1], word[2]]);
        assert("and"@ =~= seq!['a', 'n', 'd']);
        assert("And"@ =~= seq!['A', 'n', 'd']);
        assert("aNd"@ =~= seq!['a', 'N', 'd']);
        assert("anD"@ =~= seq!['a', 'n', 'D']);
        assert("ANd"@ =~= seq!['A', 'N', 'd']);
        assert("AnD"@ =~= seq!['A', 'n', 'D']);
        assert("aND"@ =~= seq!['a', 'N', 'D']);
        assert("AND"@ =~= seq!['A', 'N', 'D']);
    }
}

/// A word in the middle of a term separates alternatives if it is `or`, means
/// nothing if it is `and`, and has to match if it is any other word.
pub proof fn law_word_in_a_term(a: Seq<char>, word: Seq<char>, space: char, b: Seq<char>)
    requires
        closed_term(a),
        !dangling(a),
        is_word(word),
        word[0] != '-',
        whitespace(space),
    ensures
        alternatives_of(a + word.push(space) + b) == if word == "or"@ || word == "Or"@ || word
            == "oR"@ || word == "OR"@ {
            alternatives_of(a) + alternatives_of(b)
        } else if word == "and"@ || word == "And"@ || word == "aNd"@ || word == "anD"@ || word
            == "ANd"@ || word == "AnD"@ || word == "aND"@ || word == "AND"@ {
            alternatives_of(a + b)
        } else {
            glue(
                with_clause(
                    alternatives_of(a),
                    ClauseView { text: word, exclude: false, word: Some(false) },
                ),
                alternatives_of(b),
            )
        },
{
    law_words_for_or(word);
    law_words_for_and(word);
    if is_or(word) {
        law_or_separates(a, word, space, b);
    } else if is_and(word) {
        reveal_strlit("or");
        reveal_strlit("Or");
        reveal_strlit("oR");
        reveal_strlit("OR");
        law_and_is_optional(a, word, space, b);
    } else {
        law_word_has_to_match(a, word, space);
        lemma_word_item(word, space);
        lemma_dash_count(word);
        lemma_closed_join(a, word.push(space));
        law_terms_combine(a + word.push(space), b);
    }
}

/// A word without anything behind it is a single piece that the user may still
/// be typing.
proof fn lemma_open_word_item(word: Seq<char>)
    requires
        is_word(word),
    ensures
        items_of(word) == seq![ItemView::Word { text: word, last: true }],
{
    assert(!word.contains('"'));
    lemma_one_part(word);
    lemma_one_word(word);
    let parts = seq![word];
    reveal_with_fuel(items_of_parts, 2);
    assert(items_of_parts(parts, 0) =~= seq![]);
    assert(part_items(parts, 0) =~= seq![ItemView::Word { text: word, last: true }]);
    assert(items_of(word) =~= part_items(parts, 0));
}

/// The user may still be typing a word at the very end of a term. It separates
/// alternatives if it is `or`, means nothing if it is `and`, and has to match
/// if it is any other word.
pub proof fn law_word_at_the_end(a: Seq<char>, word: Seq<char>)
    requires
        closed_term(a),
        !dangling(a),
        is_word(word),
        word[0] != '-',
    ensures
        alternatives_of(a + word) == if word == "or"@ || word == "Or"@ || word == "oR"@ || word
            == "OR"@ {
            alternatives_of(a).push(seq![])
        } else if word == "and"@ || word == "And"@ || word == "aNd"@ || word == "anD"@ || word
            == "ANd"@ || word == "AnD"@ || word == "aND"@ || word == "AND"@ {
            alternatives_of(a)
        } else {
            with_clause(
                alternatives_of(a),
                ClauseView { text: word, exclude: false, word: Some(true) },
            )
        },
{
    law_words_for_or(word);
    law_words_for_and(word);
    lemma_open_word_item(word);
    lemma_dash_count(word);
    lemma_one_item(a, word, ItemView::Word { text: word, last: true });
}

/// The same goes for a word behind dashes, which exclude it, whatever word it
/// is.
pub proof fn law_excluded_word_at_the_end(a: Seq<char>, n: nat, word: Seq<char>)
    requires
        closed_term(a),
        n > 0 || dangling(a),
        is_word(word),
        word[0] != '-',
    ensures
        alternatives_of(a + dash_run(n) + word) == with_clause(
            alternatives_of(a),
            ClauseView { text: word, exclude: true, word: Some(true) },
        ),
{
    let dashed = dash_run(n) + word;
    lemma_dashed(n, word);
    lemma_open_word_item(dashed);
    lemma_one_item(a, dashed, ItemView::Word { text: dashed, last: true });
    assert(a + dash_run(n) + word =~= a + dashed);
}

/// More whitespace between the pieces of a term makes no difference.
pub proof fn law_more_space(a: Seq<char>, space: char)
    requires
        closed_term(a),
        whitespace(space),
    ensures
        closed_term(a.push(space)),
        dangling(a.push(space)) == dangling(a),
        alternatives_of(a.push(space)) == alternatives_of(a),
{
    let more = seq![space];
    assert(!more.contains('"'));
    lemma_one_part(more);
    assert(more.drop_last() =~= Seq::<char>::empty());
    assert(words(Seq::<char>::empty()) =~= seq![]);
    assert(words(more) =~= seq![]);
    reveal_with_fuel(items_of_parts, 2);
    assert(part_items(seq![more], 0) =~= seq![]);
    assert(items_of(more) =~= seq![]);
    lemma_items_join(a, more);
    assert(a + more =~= a.push(space));
    assert(items_of(a) + Seq::<ItemView>::empty() =~= items_of(a));
    lemma_parts_nonempty(a);
    lemma_parts_glue(a, more);
}

/// A quote ends a word like whitespace does.
pub proof fn law_word_before_quotes(a: Seq<char>, word: Seq<char>, text: Seq<char>)
    requires
        closed_term(a),
        !dangling(a),
        is_word(word),
        word[0] != '-',
        !is_or(word),
        !is_and(word),
        !text.contains('"'),
    ensures
        alternatives_of(a + word + (seq!['"'] + text.push('"'))) == with_clause(
            with_clause(
                alternatives_of(a),
                ClauseView { text: word, exclude: false, word: Some(false) },
            ),
            ClauseView { text, exclude: false, word: None },
        ),
{
    let quoted = seq!['"'] + text.push('"');
    assert(!word.contains('"'));
    lemma_quoted_items(word, text);
    lemma_one_word(word);
    lemma_dash_count(word);
    let parts = seq![word, text, seq![]];
    let first = ItemView::Word { text: word, last: false };
    let second = ItemView::Phrase(text);
    assert(part_items(parts, 0) =~= seq![first]);
    assert(items_of(word + quoted) =~= seq![first, second]);
    lemma_items_join(a, word + quoted);
    assert(a + word + quoted =~= a + (word + quoted));
    let before = items_of(a);
    let items = before + seq![first, second];
    let k = before.len() as int;
    assert(items[k] == first && items[k + 1] == second);
    if k > 0 {
        assert(items[k - 1] == before.last());
    }
    lemma_alternatives_prefix(before, seq![first, second], k);
    let clause = ClauseView { text: word, exclude: false, word: Some(false) };
    assert(role(items, k) == Role::Clause(clause));
    assert(alternatives(items, k + 1) == with_clause(alternatives_of(a), clause));
    assert(!only_dashes(items[k]));
    assert(role(items, k + 1) == Role::Clause(
        ClauseView { text, exclude: false, word: None },
    ));
}

/// The parts of a term with a quote between each two of them.
pub open spec fn quoted_parts(parts: Seq<Seq<char>>) -> Seq<char>
    decreases parts.len(),
{
    if parts.len() == 0 {
        seq![]
    } else if parts.len() == 1 {
        parts[0]
    } else {
        quoted_parts(parts.drop_last()).push('"') + parts.last()
    }
}

/// A term is split at its quotes, and nowhere else: no part has a quote in it,
/// and with quotes in between they are the term again.
pub proof fn law_terms_split_at_quotes(term: Seq<char>)
    ensures
        quoted_parts(quote_parts(term)) == term,
        forall|k: int|
            0 <= k < quote_parts(term).len() ==> !(#[trigger] quote_parts(term)[k]).contains('"'),
    decreases term.len(),
{
    lemma_parts_unquoted(term);
    if term.len() > 0 {
        let before = term.drop_last();
        law_terms_split_at_quotes(before);
        lemma_parts_nonempty(before);
        let parts = quote_parts(before);
        let now = quote_parts(term);
        if term.last() == '"' {
            assert(now.drop_last() =~= parts);
            assert(quoted_parts(now) =~= term);
        } else {
            assert(now.drop_last() =~= parts.drop_last());
            assert(now.last() == parts.last().push(term.last()));
            assert(before.push(term.last()) =~= term);
            if parts.len() > 1 {
                let start = quoted_parts(parts.drop_last()).push('"');
                assert(before == start + parts.last());
                assert(quoted_parts(now) == start + now.last());
                assert(start + now.last() =~= term);
            } else {
                assert(now[0] == now.last() && parts[0] == parts.last());
            }
        }
    }
}

/// Whether a word stands between two places of a text, and goes on neither
/// before nor behind it.
pub open spec fn word_stands(text: Seq<char>, word: Seq<char>, from: int, to: int) -> bool {
    &&& 0 <= from < to <= text.len()
    &&& word == text.subrange(from, to)
    &&& forall|i: int| from <= i < to ==> !whitespace(#[trigger] text[i])
    &&& from > 0 ==> whitespace(text[from - 1])
    &&& to < text.len() ==> whitespace(text[to])
}

/// Whether some places of a text are those of its words.
pub open spec fn words_stand(
    text: Seq<char>,
    list: Seq<Seq<char>>,
    places: Seq<(int, int)>,
) -> bool {
    &&& places.len() == list.len()
    &&& forall|k: int|
        0 <= k < list.len() ==> word_stands(
            text,
            #[trigger] list[k],
            places[k].0,
            places[k].1,
        )
    &&& forall|k: int, l: int|
        0 <= k < l < places.len() ==> (#[trigger] places[k]).1 <= (#[trigger] places[l]).0
    &&& forall|i: int|
        0 <= i < text.len() && !whitespace(#[trigger] text[i]) ==> exists|k: int|
            0 <= k < places.len() && (#[trigger] places[k]).0 <= i < places[k].1
}

/// The places of the words of a text.
spec fn word_places(text: Seq<char>) -> Seq<(int, int)>
    decreases text.len(),
{
    if text.len() == 0 {
        seq![]
    } else {
        let before = word_places(text.drop_last());
        let n = text.len() as int;
        if whitespace(text.last()) {
            before
        } else if n > 1 && !whitespace(text[n - 2]) {
            before.drop_last().push((before.last().0, n))
        } else {
            before.push((n - 1, n))
        }
    }
}

proof fn lemma_words_stand(text: Seq<char>)
    ensures
        words_stand(text, words(text), word_places(text)),
        text.len() > 0 && !whitespace(text.last()) ==> words(text).len() > 0
            && word_places(text).last().1 == text.len(),
    decreases text.len(),
{
    if text.len() > 0 {
        let before = text.drop_last();
        let n = text.len() as int;
        lemma_words_stand(before);
        let x = words(before);
        let p = word_places(before);
        let y = words(text);
        let q = word_places(text);
        assert(before.len() == n - 1);
        let open = !whitespace(text.last()) && n > 1 && !whitespace(text[n - 2]);
        assert(open ==> before.last() == text[n - 2]);
        assert forall|k: int| 0 <= k < y.len() implies word_stands(
            text,
            #[trigger] y[k],
            q[k].0,
            q[k].1,
        ) by {
            if k < x.len() {
                assert(word_stands(before, x[k], p[k].0, p[k].1));
                assert forall|i: int| p[k].0 <= i < p[k].1 implies !whitespace(
                    #[trigger] text[i],
                ) by {
                    assert(before[i] == text[i]);
                }
                if p[k].0 > 0 {
                    assert(before[p[k].0 - 1] == text[p[k].0 - 1]);
                }
                if p[k].1 < before.len() {
                    assert(before[p[k].1] == text[p[k].1]);
                }
                if open && k == x.len() - 1 {
                    assert(y[k] =~= text.subrange(q[k].0, q[k].1));
                } else {
                    assert(y[k] == x[k] && q[k] == p[k]);
                    assert(y[k] =~= text.subrange(q[k].0, q[k].1));
                    if p[k].1 == before.len() && !whitespace(text.last()) {
                        assert(!whitespace(before[p[k].1 - 1]));
                        assert(open);
                        assert(p[k].1 <= p[x.len() - 1].0);
                        assert(word_stands(before, x[x.len() - 1], p[x.len() - 1].0, p[x.len()
                            - 1].1));
                    }
                }
            } else {
                assert(y[k] =~= text.subrange(n - 1, n));
            }
        }
        assert forall|k: int, l: int| 0 <= k < l < q.len() implies (#[trigger] q[k]).1 <= (
        #[trigger] q[l]).0 by {
            if l < p.len() {
                assert(p[k].1 <= p[l].0);
            } else {
                assert(word_stands(before, x[k], p[k].0, p[k].1));
            }
        }
        assert forall|i: int| 0 <= i < n && !whitespace(#[trigger] text[i]) implies exists|k: int|
            0 <= k < q.len() && (#[trigger] q[k]).0 <= i < q[k].1 by {
            if i < n - 1 {
                assert(before[i] == text[i]);
                let k = choose|k: int| 0 <= k < p.len() && (#[trigger] p[k]).0 <= i < p[k].1;
                assert(q[k].0 <= i < q[k].1);
            } else {
                assert(q[q.len() - 1].0 <= i < q[q.len() - 1].1);
            }
        }
    }
}

/// The words of a text are its longest parts without whitespace, all of them,
/// in their order.
pub proof fn law_words_are_the_longest_parts(text: Seq<char>)
    ensures
        exists|places: Seq<(int, int)>| words_stand(text, words(text), places),
{
    lemma_words_stand(text);
}

/// The view of some clauses is the clauses themselves, with the texts of their
/// strings.
pub proof fn law_clause_views(alternatives: Seq<Vec<Clause>>, i: int, j: int)
    requires
        0 <= i < alternatives.len(),
        0 <= j < alternatives[i]@.len(),
    ensures
        alternative_views(alternatives).len() == alternatives.len(),
        alternative_views(alternatives)[i].len() == alternatives[i]@.len(),
        alternative_views(alternatives)[i][j].text == alternatives[i]@[j].text@,
        alternative_views(alternatives)[i][j].exclude == alternatives[i]@[j].exclude,
        alternative_views(alternatives)[i][j].word == alternatives[i]@[j].word,
{
}

/// The view of some pieces is the pieces themselves, with the texts of their
/// strings.
pub proof fn law_item_views(items: Seq<Item>, i: int)
    requires
        0 <= i < items.len(),
    ensures
        item_views(items).len() == items.len(),
        match items[i] {
            Item::Phrase(text) => item_views(items)[i] == ItemView::Phrase(text@),
            Item::Word { text, last } => item_views(items)[i] matches ItemView::Word {
                text: t,
                last: l,
            } && t == text@ && l == last,
        },
{
}

/// A quote ends a word like whitespace does, whatever word it is.
pub proof fn law_quote_ends_a_word(a: Seq<char>, word: Seq<char>, space: char, text: Seq<char>)
    requires
        closed_term(a),
        is_word(word),
        whitespace(space),
        !text.contains('"'),
    ensures
        alternatives_of(a + word + (seq!['"'] + text.push('"'))) == alternatives_of(
            a + word.push(space) + (seq!['"'] + text.push('"')),
        ),
{
    let quoted = seq!['"'] + text.push('"');
    let closed = word.push(space);
    assert(!word.contains('"'));
    assert(!Seq::<char>::empty().contains('"'));
    lemma_quoted_items(word, text);
    lemma_quoted_items(seq![], text);
    lemma_one_word(word);
    let item = ItemView::Word { text: word, last: false };
    assert(part_items(seq![word, text, seq![]], 0) =~= seq![item]);
    assert(words(seq![]) =~= seq![]);
    assert(part_items(seq![seq![], text, seq![]], 0) =~= seq![]);
    assert(Seq::<char>::empty() + quoted =~= quoted);
    assert(items_of(word + quoted) =~= seq![item, ItemView::Phrase(text)]);
    lemma_word_item(word, space);
    lemma_items_join(closed, quoted);
    assert(items_of(closed + quoted) =~= seq![item, ItemView::Phrase(text)]);
    lemma_items_join(a, word + quoted);
    lemma_items_join(a, closed + quoted);
    assert(a + word + quoted =~= a + (word + quoted));
    assert(a + closed + quoted =~= a + (closed + quoted));
}

/// Dashes exclude one word or phrase: what comes behind it is not excluded.
pub proof fn law_dashes_exclude_one_clause(
    a: Seq<char>,
    n: nat,
    word: Seq<char>,
    space: char,
    text: Seq<char>,
)
    requires
        closed_term(a),
        is_word(word),
        word[0] != '-',
        whitespace(space),
        !text.contains('"'),
    ensures
        closed_term(a + dash_run(n) + word.push(space)),
        !dangling(a + dash_run(n) + word.push(space)),
        closed_term(a + (seq!['"'] + text.push('"'))),
        !dangling(a + (seq!['"'] + text.push('"'))),
{
    let dashed = dash_run(n) + word;
    lemma_dashed(n, word);
    lemma_word_item(dashed, space);
    lemma_closed_join(a, dashed.push(space));
    assert(a + dash_run(n) + word.push(space) =~= a + dashed.push(space));
    let quoted = seq!['"'] + text.push('"');
    assert(!Seq::<char>::empty().contains('"'));
    lemma_quoted_items(seq![], text);
    assert(Seq::<char>::empty() + quoted =~= quoted);
    assert(words(seq![]) =~= seq![]);
    assert(part_items(seq![seq![], text, seq![]], 0) =~= seq![]);
    lemma_quoted_closed(text);
    lemma_closed_join(a, quoted);
}

/// A text in quotes is a closed term.
proof fn lemma_quoted_closed(text: Seq<char>)
    requires
        !text.contains('"'),
    ensures
        closed_term(seq!['"'] + text.push('"')),
{
    let quoted = seq!['"'] + text.push('"');
    let open = seq!['"'];
    let none = Seq::<char>::empty();
    assert(open.drop_last() =~= none);
    assert(quote_parts(none) =~= seq![none]);
    assert(quote_parts(open) =~= seq![none, none]);
    lemma_one_part(text);
    lemma_parts_glue(open, text);
    assert(quoted.drop_last() =~= open + text);
    assert(quote_parts(quoted).len() == quote_parts(open + text).len() + 1);
}

} // verus!
