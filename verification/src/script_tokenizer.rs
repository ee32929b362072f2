//! A tokenizer that splits text by writing system.

use vstd::prelude::*;
use vstd::utf8::encode_scalar;
use vstd::utf8::encode_utf8;

use crate::text::alphanumeric;
use crate::text::chars_of;
use crate::text::lemma_encode_concat;
use crate::text::lemma_offset_bound;
use crate::text::lemma_offset_slice;
use crate::text::lemma_offset_step;
use crate::text::offset;
use crate::text::string_views;
use crate::text::utf8_width;

verus! {

/// A piece of a text that the index stores and finds.
#[derive(Clone, Debug, PartialEq, Eq)]
pub struct Token {
    /// The byte offset of the first character.
    pub offset_from: usize,
    /// The byte offset behind the last character.
    pub offset_to: usize,
    /// How many tokens come before this one.
    pub position: usize,
    pub text: String,
    /// How many tokens this one stands for.
    pub position_length: usize,
}

/// What a token says.
#[verifier::ext_equal]
pub struct TokenView {
    pub offset_from: int,
    pub offset_to: int,
    pub position: int,
    pub text: Seq<char>,
    pub position_length: int,
}

impl View for Token {
    type V = TokenView;

    open spec fn view(&self) -> TokenView {
        TokenView {
            offset_from: self.offset_from as int,
            offset_to: self.offset_to as int,
            position: self.position as int,
            text: self.text@,
            position_length: self.position_length as int,
        }
    }
}

/// What a list of tokens says.
pub open spec fn token_views(tokens: Seq<Token>) -> Seq<TokenView> {
    tokens.map_values(|token: Token| token@)
}

/// The writing systems that don't separate words with spaces.
#[derive(Clone, Copy, Debug, PartialEq, Eq, Structural)]
pub enum Script {
    Han,
    Hiragana,
    Katakana,
    Hangul,
}

/// Whether a character lies between two others, by code point.
pub open spec fn between(c: char, first: u32, last: u32) -> bool {
    first <= c as u32 <= last
}

/// The writing system of a character, among those without spaces.
pub open spec fn script(c: char) -> Option<Script> {
    if between(c, 0x3400, 0x4DBF) || between(c, 0x4E00, 0x9FFF) || between(c, 0xF900, 0xFAFF)
        || between(c, 0x20000, 0x2FA1F) {
        Some(Script::Han)
    } else if between(c, 0x3040, 0x309F) {
        Some(Script::Hiragana)
    } else if between(c, 0x30A0, 0x30FF) || between(c, 0x31F0, 0x31FF) {
        Some(Script::Katakana)
    } else if between(c, 0x1100, 0x11FF) || between(c, 0x3130, 0x318F) || between(
        c,
        0xA960,
        0xA97F,
    ) || between(c, 0xAC00, 0xD7FF) {
        Some(Script::Hangul)
    } else {
        None
    }
}

/// The writing system of a character, among those without spaces.
pub fn script_of(c: char) -> (r: Option<Script>)
    ensures
        r == script(c),
{
    match c {
        '\u{3400}'..='\u{4DBF}'
        | '\u{4E00}'..='\u{9FFF}'
        | '\u{F900}'..='\u{FAFF}'
        | '\u{20000}'..='\u{2FA1F}' => Some(Script::Han),
        '\u{3040}'..='\u{309F}' => Some(Script::Hiragana),
        '\u{30A0}'..='\u{30FF}' | '\u{31F0}'..='\u{31FF}' => Some(Script::Katakana),
        '\u{1100}'..='\u{11FF}'
        | '\u{3130}'..='\u{318F}'
        | '\u{A960}'..='\u{A97F}'
        | '\u{AC00}'..='\u{D7FF}' => Some(Script::Hangul),
        _ => None,
    }
}

/// Whether the characters `i` and `i + 1` belong to one run: neither is a
/// separator, and both are of the same script.
pub open spec fn joined(chars: Seq<char>, word: Seq<bool>, i: int) -> bool {
    &&& 0 <= i
    &&& i + 1 < chars.len()
    &&& word[i]
    &&& word[i + 1]
    &&& script(chars[i]) == script(chars[i + 1])
}

/// The index behind the run that the character `i` belongs to.
pub open spec fn run_end(chars: Seq<char>, word: Seq<bool>, i: int) -> int
    decreases chars.len() - i,
{
    if joined(chars, word, i) {
        run_end(chars, word, i + 1)
    } else {
        i + 1
    }
}

/// How a run of some characters is cut: a word, or a single character, is one
/// piece, and longer text of a script without spaces is cut into overlapping
/// pairs.
pub open spec fn pieces(length: int, script: Option<Script>) -> Seq<(int, int)> {
    if script is None || length <= 1 {
        seq![(0, length)]
    } else {
        Seq::new((length - 1) as nat, |k: int| (k, k + 2))
    }
}

/// The pieces of the run `[from, to)`, as parts of the whole text.
pub open spec fn run_spans(chars: Seq<char>, from: int, to: int) -> Seq<(int, int)> {
    pieces(to - from, script(chars[from])).map_values(
        |piece: (int, int)| (from + piece.0, from + piece.1),
    )
}

pub proof fn lemma_run_end(chars: Seq<char>, word: Seq<bool>, i: int)
    requires
        0 <= i < chars.len(),
    ensures
        i < run_end(chars, word, i) <= chars.len(),
        forall|k: int| i <= k < run_end(chars, word, i) - 1 ==> joined(chars, word, k),
        !joined(chars, word, run_end(chars, word, i) - 1),
    decreases chars.len() - i,
{
    if joined(chars, word, i) {
        lemma_run_end(chars, word, i + 1);
    }
}

/// The parts of the text behind the first `i` characters that become tokens.
pub open spec fn spans_from(chars: Seq<char>, word: Seq<bool>, i: int) -> Seq<(int, int)>
    decreases chars.len() - i,
{
    if i < 0 || i >= chars.len() {
        seq![]
    } else if !word[i] {
        spans_from(chars, word, i + 1)
    } else {
        proof {
            lemma_run_end(chars, word, i);
        }
        let end = run_end(chars, word, i);
        run_spans(chars, i, end) + spans_from(chars, word, end)
    }
}

/// The parts `[from, to)` of a text that become tokens, by character index.
/// `word` tells the characters that are no separators.
pub open spec fn spans(chars: Seq<char>, word: Seq<bool>) -> Seq<(int, int)> {
    spans_from(chars, word, 0)
}

/// The part of a text as a token.
pub open spec fn token_at(chars: Seq<char>, span: (int, int), position: int) -> TokenView {
    TokenView {
        offset_from: offset(chars, span.0),
        offset_to: offset(chars, span.1),
        position,
        text: chars.subrange(span.0, span.1),
        position_length: 1,
    }
}

/// The tokens of a text.
pub open spec fn tokens_of(chars: Seq<char>, word: Seq<bool>) -> Seq<TokenView> {
    Seq::new(
        spans(chars, word).len(),
        |k: int| token_at(chars, spans(chars, word)[k], k),
    )
}

/// Which characters of a text are no separators.
pub open spec fn marks(chars: Seq<char>) -> Seq<bool> {
    chars.map_values(|c: char| alphanumeric(c))
}

/// The characters `[from, to)` of a run, which holds each character with its
/// byte offset, as a token.
pub open spec fn run_token(
    run: Seq<(usize, char)>,
    from: int,
    to: int,
    position: int,
) -> TokenView {
    TokenView {
        offset_from: run[from].0 as int,
        offset_to: run[to - 1].0 + encode_scalar(run[to - 1].1 as u32).len(),
        position,
        text: Seq::new((to - from) as nat, |k: int| run[from + k].1),
        position_length: 1,
    }
}

/// Every offset behind a character of the run can be told.
pub open spec fn run_fits(run: Seq<(usize, char)>) -> bool {
    forall|k: int|
        0 <= k < run.len() ==> (#[trigger] run[k]).0 + encode_scalar(run[k].1 as u32).len()
            <= usize::MAX
}

/// Add the characters `[from, to)` of the run as one token.
fn add_token(
    tokens: &mut Vec<Token>,
    run: &Vec<(usize, char)>,
    from: usize,
    to: usize,
    position: &mut usize,
)
    requires
        from < to <= run.len(),
        run_fits(run@),
        *old(position) < usize::MAX,
    ensures
        token_views(final(tokens)@) == token_views(old(tokens)@).push(
            run_token(run@, from as int, to as int, *old(position) as int),
        ),
        *final(position) == *old(position) + 1,
{
    let offset_from = run[from].0;
    let (last_offset, last_char) = run[to - 1];
    let mut text = String::new();
    let mut k: usize = from;
    while k < to
        invariant
            from <= k <= to <= run.len(),
            text@ == Seq::new((k - from) as nat, |j: int| run@[from + j].1),
        decreases to - k,
    {
        text.push(run[k].1);
        k = k + 1;
    }
    tokens.push(
        Token {
            offset_from,
            offset_to: last_offset + utf8_width(last_char),
            position: *position,
            text,
            position_length: 1,
        },
    );
    *position = *position + 1;
    assert(token_views(tokens@) =~= token_views(old(tokens)@).push(
        run_token(run@, from as int, to as int, *old(position) as int),
    ));
}

/// The tokens of a finished run.
pub open spec fn run_tokens(
    run: Seq<(usize, char)>,
    script: Option<Script>,
    position: int,
) -> Seq<TokenView> {
    Seq::new(
        pieces(run.len() as int, script).len(),
        |k: int|
            run_token(
                run,
                pieces(run.len() as int, script)[k].0,
                pieces(run.len() as int, script)[k].1,
                position + k,
            ),
    )
}

/// Turn the characters of a finished run into tokens.
fn flush(
    tokens: &mut Vec<Token>,
    run: &mut Vec<(usize, char)>,
    script: Option<Script>,
    position: &mut usize,
)
    requires
        old(run).len() > 0,
        run_fits(old(run)@),
        *old(position) + old(run).len() <= usize::MAX,
    ensures
        token_views(final(tokens)@) == token_views(old(tokens)@) + run_tokens(
            old(run)@,
            script,
            *old(position) as int,
        ),
        *final(position) == *old(position) + pieces(old(run).len() as int, script).len(),
        final(run)@.len() == 0,
{
    let length = run.len();
    let ghost before = token_views(tokens@);
    let ghost first = *position as int;
    let ghost expected = run_tokens(run@, script, first);
    match script {
        // A word of a script that separates words with spaces.
        None => add_token(tokens, run, 0, length, position),
        // Chinese, Japanese or Korean: overlapping pairs of characters.
        Some(_) => {
            if length == 1 {
                add_token(tokens, run, 0, 1, position);
            } else {
                let mut start: usize = 0;
                while start < length - 1
                    invariant
                        1 < length == run.len(),
                        start <= length - 1,
                        script is Some,
                        run_fits(run@),
                        first + length <= usize::MAX,
                        *position == first + start,
                        expected == run_tokens(run@, script, first),
                        token_views(tokens@) == before + expected.take(start as int),
                    decreases length - start,
                {
                    add_token(tokens, run, start, start + 2, position);
                    start = start + 1;
                    assert(expected.take(start as int) =~= expected.take(start - 1).push(
                        expected[start - 1],
                    ));
                }
            }
        },
    }
    assert(token_views(tokens@) =~= before + expected);
    run.clear();
}

/// The run `[from, to)` of a text, each character with its byte offset.
pub open spec fn run_of(chars: Seq<char>, from: int, to: int) -> Seq<(usize, char)> {
    Seq::new((to - from) as nat, |k: int| (offset(chars, from + k) as usize, chars[from + k]))
}

/// The tokens of a run are the tokens of its spans.
proof fn lemma_run_tokens(chars: Seq<char>, from: int, to: int, position: int)
    requires
        0 <= from < to <= chars.len(),
        encode_utf8(chars).len() <= usize::MAX,
    ensures
        run_fits(run_of(chars, from, to)),
        run_tokens(run_of(chars, from, to), script(chars[from]), position) == Seq::new(
            run_spans(chars, from, to).len(),
            |k: int| token_at(chars, run_spans(chars, from, to)[k], position + k),
        ),
{
    let run = run_of(chars, from, to);
    let script = script(chars[from]);
    assert forall|i: int| from <= i < to implies {
        &&& #[trigger] run[i - from] == (offset(chars, i) as usize, chars[i])
        &&& run[i - from].0 == offset(chars, i)
        &&& run[i - from].0 + encode_scalar(chars[i] as u32).len() == offset(chars, i + 1)
        &&& offset(chars, i + 1) <= usize::MAX
    } by {
        lemma_offset_bound(chars, i);
        lemma_offset_bound(chars, i + 1);
        lemma_offset_step(chars, i);
    }
    assert forall|k: int| 0 <= k < run.len() implies (#[trigger] run[k]).0 + encode_scalar(
        run[k].1 as u32,
    ).len() <= usize::MAX by {
        assert(run[(from + k) - from] == run[k]);
    }
    let pieces = pieces(run.len() as int, script);
    let left = run_tokens(run, script, position);
    let right = Seq::new(
        run_spans(chars, from, to).len(),
        |k: int| token_at(chars, run_spans(chars, from, to)[k], position + k),
    );
    assert(left.len() == right.len());
    assert forall|k: int| 0 <= k < left.len() implies left[k] == right[k] by {
        let a = pieces[k].0;
        let b = pieces[k].1;
        assert(0 <= a < b <= run.len());
        assert(run[(from + a) - from] == run[a]);
        assert(run[(from + b - 1) - from] == run[b - 1]);
        assert(left[k].text =~= right[k].text);
    }
    assert(left =~= right);
}

/// A run that cannot be longer ends where its last character is.
proof fn lemma_run_end_is(chars: Seq<char>, word: Seq<bool>, from: int, to: int)
    requires
        0 <= from < to <= chars.len(),
        forall|k: int| from <= k < to - 1 ==> joined(chars, word, k),
        !joined(chars, word, to - 1),
    ensures
        run_end(chars, word, from) == to,
    decreases to - from,
{
    if from < to - 1 {
        assert(joined(chars, word, from));
        lemma_run_end_is(chars, word, from + 1, to);
    }
}

/// The characters of a run are of one script.
proof fn lemma_run_script(chars: Seq<char>, word: Seq<bool>, from: int, i: int)
    requires
        0 <= from <= i,
        forall|k: int| from <= k < i ==> joined(chars, word, k),
    ensures
        script(chars[i]) == script(chars[from]),
    decreases i - from,
{
    if from < i {
        assert(joined(chars, word, i - 1));
        lemma_run_script(chars, word, from, i - 1);
    }
}

/// The tokens of some spans, counted from `position` on.
pub open spec fn tokens_at(
    chars: Seq<char>,
    spans: Seq<(int, int)>,
    position: int,
) -> Seq<TokenView> {
    Seq::new(spans.len(), |k: int| token_at(chars, spans[k], position + k))
}

/// Split a text into tokens. `word` tells the characters that are no
/// separators.
pub fn tokenize_marked(chars: &Vec<char>, word: &Vec<bool>) -> (tokens: Vec<Token>)
    requires
        word.len() == chars.len(),
        encode_utf8(chars@).len() <= usize::MAX,
    ensures
        token_views(tokens@) == tokens_of(chars@, word@),
{
    let mut tokens: Vec<Token> = Vec::new();
    let mut position: usize = 0;
    // The characters of the current run, with their byte offsets.
    let mut run: Vec<(usize, char)> = Vec::new();
    let mut script: Option<Script> = None;
    let mut byte: usize = 0;
    let mut i: usize = 0;
    let ghost all = spans(chars@, word@);
    let ghost mut done: Seq<(int, int)> = seq![];
    proof {
        assert(all =~= done + spans_from(chars@, word@, 0));
        assert(token_views(tokens@) =~= tokens_at(chars@, done, 0));
        assert(chars@.take(0) =~= Seq::<char>::empty());
        assert(encode_utf8(chars@.take(0)) =~= Seq::<u8>::empty());
        assert(run@ =~= run_of(chars@, 0, 0));
    }
    while i < chars.len()
        invariant
            i <= chars.len(),
            word.len() == chars.len(),
            encode_utf8(chars@).len() <= usize::MAX,
            byte == offset(chars@, i as int),
            all == spans(chars@, word@),
            run.len() <= i,
            run@ == run_of(chars@, i - run.len(), i as int),
            run.len() > 0 ==> {
                &&& word@[i - run.len()]
                &&& word@[i - 1]
                &&& script == self::script(chars@[i - run.len()])
                &&& script == self::script(chars@[i - 1])
                &&& forall|k: int| i - run.len() <= k < i - 1 ==> joined(chars@, word@, k)
            },
            all == done + spans_from(chars@, word@, i - run.len()),
            position == done.len() <= i - run.len(),
            token_views(tokens@) == tokens_at(chars@, done, 0),
        decreases chars.len() - i,
    {
        let c = chars[i];
        let c_script = script_of(c);
        let ghost start: int = i - run.len();
        let separator = !word[i];
        // A separator, or the start of a different script, ends the run.
        if run.len() > 0 && (separator || c_script != script) {
            proof {
                lemma_run_end_is(chars@, word@, start, i as int);
                lemma_run_tokens(chars@, start, i as int, position as int);
                lemma_run_end(chars@, word@, start);
                let new = run_spans(chars@, start, i as int);
                assert(done + spans_from(chars@, word@, start) =~= (done + new) + spans_from(
                    chars@,
                    word@,
                    i as int,
                ));
                assert(tokens_at(chars@, done, 0) + tokens_at(chars@, new, position as int)
                    =~= tokens_at(chars@, done + new, 0));
                done = done + new;
            }
            flush(&mut tokens, &mut run, script, &mut position);
        }
        proof {
            lemma_offset_step(chars@, i as int);
            lemma_offset_bound(chars@, i as int + 1);
        }
        if separator {
            assert(run@ =~= run_of(chars@, i + 1, i + 1));
        } else {
            let ghost from: int = i - run.len();
            script = c_script;
            run.push((byte, c));
            assert(run@ =~= run_of(chars@, from, i + 1));
            assert(from < i ==> joined(chars@, word@, i - 1));
        }
        byte = byte + utf8_width(c);
        i = i + 1;
    }
    if run.len() > 0 {
        proof {
            let start: int = i - run.len();
            lemma_run_end_is(chars@, word@, start, i as int);
            lemma_run_tokens(chars@, start, i as int, position as int);
            let new = run_spans(chars@, start, i as int);
            assert(spans_from(chars@, word@, i as int) =~= seq![]);
            assert(done + spans_from(chars@, word@, start) =~= done + new);
            assert(tokens_at(chars@, done, 0) + tokens_at(chars@, new, position as int)
                =~= tokens_at(chars@, done + new, 0));
            done = done + new;
        }
        flush(&mut tokens, &mut run, script, &mut position);
    }
    assert(all =~= done);
    assert(tokens_at(chars@, all, 0) =~= tokens_of(chars@, word@));
    tokens
}

/// Split a text into tokens: words, and pairs of characters of the scripts
/// that write without spaces.
pub fn tokenize(text: &str) -> (tokens: Vec<Token>)
    ensures
        token_views(tokens@) == tokens_of(text@, marks(text@)),
{
    let chars = chars_of(text);
    // A text in memory has a length in bytes, so every offset can be told.
    let _bytes: usize = text.as_bytes().len();
    let mut word: Vec<bool> = Vec::new();
    let mut i: usize = 0;
    while i < chars.len()
        invariant
            i <= chars.len(),
            word@ == marks(chars@).take(i as int),
        decreases chars.len() - i,
    {
        word.push(chars[i].is_alphanumeric());
        i = i + 1;
        assert(marks(chars@).take(i as int) =~= marks(chars@).take(i - 1).push(
            marks(chars@)[i - 1],
        ));
    }
    assert(word@ =~= marks(text@));
    tokenize_marked(&chars, &word)
}

/// The texts of the tokens of a text.
pub fn texts(text: &str) -> (r: Vec<String>)
    ensures
        string_views(r@) == tokens_of(text@, marks(text@)).map_values(
            |token: TokenView| token.text,
        ),
{
    let tokens = tokenize(text);
    let ghost expected = tokens_of(text@, marks(text@));
    let mut r: Vec<String> = Vec::new();
    let mut i: usize = 0;
    while i < tokens.len()
        invariant
            i <= tokens.len(),
            r.len() == i,
            token_views(tokens@) == expected,
            forall|k: int| 0 <= k < i ==> (#[trigger] r@[k])@ == expected[k].text,
        decreases tokens.len() - i,
    {
        assert(token_views(tokens@)[i as int] == tokens@[i as int]@);
        r.push(tokens[i].text.clone());
        i = i + 1;
    }
    assert(token_views(tokens@).len() == tokens.len());
    assert(string_views(r@) =~= expected.map_values(|token: TokenView| token.text));
    r
}

/// Splits text into words, and Chinese, Japanese and Korean text into
/// overlapping pairs of characters.
///
/// Those languages write without spaces between words, so a word tokenizer
/// turns a whole sentence into a single token, and a search for a word in it
/// finds nothing. Pairs of characters make the text searchable without a
/// dictionary for every language.
///
/// Pairs stay inside a run of the same script, so Japanese text keeps its
/// kanji and kana apart. A run of a single character becomes one token.
#[derive(Clone, Copy, Debug)]
pub struct ScriptTokenizer;

impl ScriptTokenizer {
    /// The tokens of a text, one after the other.
    pub fn token_stream(&mut self, text: &str) -> (stream: ScriptTokenStream)
        ensures
            stream.valid(),
            stream.consumed() == 0,
            token_views(stream.all()) == tokens_of(text@, marks(text@)),
    {
        ScriptTokenStream { tokens: tokenize(text), index: 0 }
    }
}

/// Hands out tokens one after the other.
pub struct ScriptTokenStream {
    tokens: Vec<Token>,
    index: usize,
}

impl ScriptTokenStream {
    /// All tokens, also those that were handed out already.
    pub closed spec fn all(&self) -> Seq<Token> {
        self.tokens@
    }

    /// How many tokens the stream has advanced over.
    pub closed spec fn consumed(&self) -> int {
        self.index as int
    }

    pub open spec fn valid(&self) -> bool {
        0 <= self.consumed() <= self.all().len()
    }

    /// The index of the current token: the last one that the stream advanced
    /// over, and the first one before it did.
    pub open spec fn current(&self) -> int {
        if self.consumed() == 0 {
            0
        } else {
            self.consumed() - 1
        }
    }

    /// Whether there are no tokens at all.
    pub fn is_empty(&self) -> (empty: bool)
        ensures
            empty == (self.all().len() == 0),
    {
        self.tokens.len() == 0
    }

    /// Go to the next token, if there is one.
    pub fn advance(&mut self) -> (more: bool)
        requires
            old(self).valid(),
        ensures
            final(self).valid(),
            final(self).all() == old(self).all(),
            more == (old(self).consumed() < old(self).all().len()),
            final(self).consumed() == old(self).consumed() + if more {
                1int
            } else {
                0
            },
    {
        if self.index >= self.tokens.len() {
            return false;
        }
        self.index = self.index + 1;
        true
    }

    /// The current token.
    pub fn token(&self) -> (token: &Token)
        requires
            self.valid(),
            self.all().len() > 0,
        ensures
            *token == self.all()[self.current()],
            self.consumed() == 0 ==> *token == self.all()[0],
            self.consumed() > 0 ==> *token == self.all()[self.consumed() - 1],
    {
        &self.tokens[self.index.saturating_sub(1)]
    }

    /// The current token, to change it.
    pub fn token_mut(&mut self) -> (token: &mut Token)
        requires
            old(self).valid(),
            old(self).all().len() > 0,
        ensures
            *token == old(self).all()[old(self).current()],
            final(self).all() == old(self).all().update(old(self).current(), *final(token)),
            final(self).consumed() == old(self).consumed(),
            old(self).consumed() == 0 ==> *token == old(self).all()[0] && final(self).all()
                == old(self).all().update(0, *final(token)),
            old(self).consumed() > 0 ==> *token == old(self).all()[old(self).consumed() - 1]
                && final(self).all() == old(self).all().update(
                old(self).consumed() - 1,
                *final(token),
            ),
    {
        let index = self.index.saturating_sub(1);
        &mut self.tokens[index]
    }
}

/// What every token of a text is: a word between two ends of a run, or a pair
/// inside a run of a script without spaces, or such a run of one character.
pub open spec fn proper(chars: Seq<char>, word: Seq<bool>, span: (int, int)) -> bool {
    &&& 0 <= span.0 < span.1 <= chars.len()
    &&& forall|i: int| span.0 <= i < span.1 ==> #[trigger] word[i]
    &&& forall|i: int| span.0 <= i < span.1 ==> script(#[trigger] chars[i]) == script(chars[span.0])
    &&& (script(chars[span.0]) is None || span.1 - span.0 != 2) ==> {
        &&& !joined(chars, word, span.0 - 1)
        &&& !joined(chars, word, span.1 - 1)
    }
    &&& script(chars[span.0]) is Some ==> span.1 - span.0 <= 2
}

/// What the tokens of a text behind the first `i` characters are: each of
/// them is proper, they start further and further into the text, and no
/// character but the separators is left out.
spec fn well_cut(chars: Seq<char>, word: Seq<bool>, i: int, all: Seq<(int, int)>) -> bool {
    &&& forall|k: int|
        0 <= k < all.len() ==> proper(chars, word, #[trigger] all[k]) && i <= all[k].0
    &&& forall|k: int, l: int|
        0 <= k < l < all.len() ==> (#[trigger] all[k]).0 < (#[trigger] all[l]).0
    &&& forall|j: int|
        i <= j < chars.len() && #[trigger] word[j] ==> exists|k: int|
            0 <= k < all.len() && (#[trigger] all[k]).0 <= j < all[k].1
}

proof fn lemma_spans_proper(chars: Seq<char>, word: Seq<bool>, i: int)
    requires
        0 <= i <= chars.len(),
        word.len() == chars.len(),
        !joined(chars, word, i - 1),
    ensures
        well_cut(chars, word, i, spans_from(chars, word, i)),
    decreases chars.len() - i,
{
    let all = spans_from(chars, word, i);
    if i < chars.len() {
        if !word[i] {
            lemma_spans_proper(chars, word, i + 1);
            assert(well_cut(chars, word, i + 1, all));
        } else {
            let end = run_end(chars, word, i);
            lemma_run_end(chars, word, i);
            lemma_spans_proper(chars, word, end);
            let run = run_spans(chars, i, end);
            let rest = spans_from(chars, word, end);
            assert(all =~= run + rest);
            assert forall|j: int| i <= j < end implies script(#[trigger] chars[j]) == script(
                chars[i],
            ) by {
                lemma_run_script(chars, word, i, j);
            }
            assert forall|j: int| i <= j < end implies #[trigger] word[j] by {
                if i < j {
                    assert(joined(chars, word, j - 1));
                }
            }
            let cut = pieces(end - i, script(chars[i]));
            assert forall|k: int| 0 <= k < run.len() implies proper(
                chars,
                word,
                #[trigger] run[k],
            ) && i <= run[k].0 < end by {
                assert(run[k] == (i + cut[k].0, i + cut[k].1));
                assert(script(chars[run[k].0]) == script(chars[i]));
            }
            assert forall|k: int| 0 <= k < all.len() implies proper(chars, word, #[trigger] all[k])
                && i <= all[k].0 by {
                if k >= run.len() {
                    assert(all[k] == rest[k - run.len()]);
                } else {
                    assert(all[k] == run[k]);
                }
            }
            assert forall|k: int, l: int| 0 <= k < l < all.len() implies (#[trigger] all[k]).0 < (
            #[trigger] all[l]).0 by {
                if k >= run.len() {
                    assert(all[k] == rest[k - run.len()]);
                    assert(all[l] == rest[l - run.len()]);
                } else if l >= run.len() {
                    assert(all[k] == run[k]);
                    assert(all[l] == rest[l - run.len()]);
                } else {
                    assert(run[k] == (i + cut[k].0, i + cut[k].1));
                    assert(run[l] == (i + cut[l].0, i + cut[l].1));
                }
            }
            assert forall|j: int| i <= j < chars.len() && #[trigger] word[j] implies exists|k: int|
                0 <= k < all.len() && (#[trigger] all[k]).0 <= j < all[k].1 by {
                if j >= end {
                    let k = choose|k: int|
                        0 <= k < rest.len() && (#[trigger] rest[k]).0 <= j < rest[k].1;
                    assert(all[run.len() + k] == rest[k]);
                } else {
                    let k: int = if cut.len() == 1 {
                        0
                    } else if j == end - 1 {
                        j - i - 1
                    } else {
                        j - i
                    };
                    assert(run[k] == (i + cut[k].0, i + cut[k].1));
                    assert(all[k] == run[k]);
                }
            }
            assert(well_cut(chars, word, i, all));
        }
    }
}

/// The offsets of a token point back at the text: the bytes between them are
/// the token's own text.
pub proof fn law_offsets_point_back(chars: Seq<char>, word: Seq<bool>, k: int)
    requires
        word.len() == chars.len(),
        0 <= k < tokens_of(chars, word).len(),
    ensures
        ({
            let token = tokens_of(chars, word)[k];
            &&& 0 <= token.offset_from <= token.offset_to <= encode_utf8(chars).len()
            &&& encode_utf8(chars).subrange(token.offset_from, token.offset_to) == encode_utf8(
                token.text,
            )
        }),
{
    lemma_spans_proper(chars, word, 0);
    let span = spans(chars, word)[k];
    assert(proper(chars, word, span));
    lemma_offset_slice(chars, span.0, span.1);
}

/// The positions of the tokens follow each other.
pub proof fn law_positions_follow(chars: Seq<char>, word: Seq<bool>, k: int)
    requires
        0 <= k < tokens_of(chars, word).len(),
    ensures
        tokens_of(chars, word)[k].position == k,
        tokens_of(chars, word)[k].position_length == 1,
{
}

/// Every token is a whole word, or at most two characters of one script that
/// writes without spaces, and holds no separator. The tokens start further
/// and further into the text.
pub proof fn law_tokens_are_proper(chars: Seq<char>, word: Seq<bool>)
    requires
        word.len() == chars.len(),
    ensures
        forall|k: int|
            0 <= k < spans(chars, word).len() ==> proper(
                chars,
                word,
                #[trigger] spans(chars, word)[k],
            ),
        forall|k: int, l: int|
            0 <= k < l < spans(chars, word).len() ==> (#[trigger] spans(chars, word)[k]).0 < (
            #[trigger] spans(chars, word)[l]).0,
{
    lemma_spans_proper(chars, word, 0);
}

/// Every character that is no separator is part of a token.
pub proof fn law_every_character_is_found(chars: Seq<char>, word: Seq<bool>, i: int)
    requires
        word.len() == chars.len(),
        0 <= i < chars.len(),
        word[i],
    ensures
        exists|k: int|
            0 <= k < spans(chars, word).len() && (#[trigger] spans(chars, word)[k]).0 <= i < spans(
                chars,
                word,
            )[k].1,
{
    lemma_spans_proper(chars, word, 0);
    let all = spans_from(chars, word, 0);
    let k = choose|k: int| 0 <= k < all.len() && (#[trigger] all[k]).0 <= i < all[k].1;
    assert(spans(chars, word)[k].0 <= i);
}

/// Any two neighbours of a run of a script without spaces are a token, so a
/// search for the pair finds them wherever they stand.
pub proof fn law_every_pair_is_found(chars: Seq<char>, word: Seq<bool>, i: int)
    requires
        word.len() == chars.len(),
        joined(chars, word, i),
        script(chars[i]) is Some,
    ensures
        spans(chars, word).contains((i, i + 2)),
{
    lemma_pair_is_found(chars, word, 0, i);
}

proof fn lemma_pair_is_found(chars: Seq<char>, word: Seq<bool>, from: int, i: int)
    requires
        word.len() == chars.len(),
        0 <= from <= i,
        !joined(chars, word, from - 1),
        joined(chars, word, i),
        script(chars[i]) is Some,
    ensures
        spans_from(chars, word, from).contains((i, i + 2)),
    decreases chars.len() - from,
{
    let all = spans_from(chars, word, from);
    if !word[from] {
        lemma_pair_is_found(chars, word, from + 1, i);
    } else {
        let end = run_end(chars, word, from);
        lemma_run_end(chars, word, from);
        let run = run_spans(chars, from, end);
        let rest = spans_from(chars, word, end);
        assert(all =~= run + rest);
        if i < end {
            assert(i + 1 < end);
            lemma_run_script(chars, word, from, i);
            let cut = pieces(end - from, script(chars[from]));
            assert(run[i - from] == (from + cut[i - from].0, from + cut[i - from].1));
            assert(all[i - from] == (i, i + 2));
        } else {
            lemma_pair_is_found(chars, word, end, i);
            let k = choose|k: int| 0 <= k < rest.len() && rest[k] == (i, i + 2);
            assert(all[run.len() + k] == (i, i + 2));
        }
    }
}

/// A token further into a text, behind some bytes and some tokens.
pub open spec fn moved(token: TokenView, bytes: int, tokens: int) -> TokenView {
    TokenView {
        offset_from: token.offset_from + bytes,
        offset_to: token.offset_to + bytes,
        position: token.position + tokens,
        ..token
    }
}

/// Some spans, `by` characters further into a text.
spec fn shifted(spans: Seq<(int, int)>, by: int) -> Seq<(int, int)> {
    spans.map_values(|span: (int, int)| (span.0 + by, span.1 + by))
}

/// A run at the end of a text ends there.
proof fn lemma_run_end_behind(
    chars: Seq<char>,
    word: Seq<bool>,
    b: Seq<char>,
    wb: Seq<bool>,
    by: int,
    j: int,
)
    requires
        0 <= by,
        0 <= j < b.len(),
        wb.len() == b.len(),
        chars.len() == by + b.len(),
        word.len() == chars.len(),
        chars.skip(by) == b,
        word.skip(by) == wb,
    ensures
        run_end(chars, word, by + j) == by + run_end(b, wb, j),
    decreases b.len() - j,
{
    assert(b[j] == chars[by + j] && wb[j] == word[by + j]);
    if j + 1 < b.len() {
        assert(b[j + 1] == chars[by + j + 1] && wb[j + 1] == word[by + j + 1]);
        lemma_run_end_behind(chars, word, b, wb, by, j + 1);
    }
}

/// What is cut behind a place does not depend on what stands before it.
proof fn lemma_spans_behind(
    chars: Seq<char>,
    word: Seq<bool>,
    b: Seq<char>,
    wb: Seq<bool>,
    by: int,
    j: int,
)
    requires
        0 <= by,
        0 <= j <= b.len(),
        wb.len() == b.len(),
        chars.len() == by + b.len(),
        word.len() == chars.len(),
        chars.skip(by) == b,
        word.skip(by) == wb,
    ensures
        spans_from(chars, word, by + j) == shifted(spans_from(b, wb, j), by),
    decreases b.len() - j,
{
    if j < b.len() {
        assert(b[j] == chars[by + j] && wb[j] == word[by + j]);
        if wb[j] {
            lemma_run_end(b, wb, j);
            lemma_run_end(chars, word, by + j);
            lemma_run_end_behind(chars, word, b, wb, by, j);
            let end = run_end(b, wb, j);
            lemma_spans_behind(chars, word, b, wb, by, end);
            assert(run_spans(chars, by + j, by + end) =~= shifted(run_spans(b, j, end), by));
            assert(shifted(run_spans(b, j, end), by) + shifted(spans_from(b, wb, end), by)
                =~= shifted(run_spans(b, j, end) + spans_from(b, wb, end), by));
        } else {
            lemma_spans_behind(chars, word, b, wb, by, j + 1);
        }
    }
    assert(spans_from(chars, word, by + j) =~= shifted(spans_from(b, wb, j), by));
}

/// A run before a separator does not depend on what stands behind it.
proof fn lemma_run_end_before(
    chars: Seq<char>,
    word: Seq<bool>,
    a: Seq<char>,
    wa: Seq<bool>,
    i: int,
)
    requires
        wa.len() == a.len(),
        a.len() < chars.len(),
        word.len() == chars.len(),
        chars.take(a.len() as int) == a,
        word.take(a.len() as int) == wa,
        !word[a.len() as int],
        0 <= i < a.len(),
    ensures
        run_end(chars, word, i) == run_end(a, wa, i),
    decreases a.len() - i,
{
    assert(a[i] == chars[i] && wa[i] == word[i]);
    if i + 1 < a.len() {
        assert(a[i + 1] == chars[i + 1] && wa[i + 1] == word[i + 1]);
        lemma_run_end_before(chars, word, a, wa, i + 1);
    }
}

/// What is cut before a separator does not depend on what stands behind it.
proof fn lemma_spans_before(
    chars: Seq<char>,
    word: Seq<bool>,
    a: Seq<char>,
    wa: Seq<bool>,
    i: int,
)
    requires
        wa.len() == a.len(),
        a.len() < chars.len(),
        word.len() == chars.len(),
        chars.take(a.len() as int) == a,
        word.take(a.len() as int) == wa,
        !word[a.len() as int],
        0 <= i <= a.len(),
    ensures
        spans_from(chars, word, i) == spans_from(a, wa, i) + spans_from(
            chars,
            word,
            a.len() as int + 1,
        ),
    decreases a.len() - i,
{
    let rest = spans_from(chars, word, a.len() as int + 1);
    if i < a.len() {
        assert(a[i] == chars[i] && wa[i] == word[i]);
        if wa[i] {
            lemma_run_end(a, wa, i);
            lemma_run_end(chars, word, i);
            lemma_run_end_before(chars, word, a, wa, i);
            let end = run_end(a, wa, i);
            lemma_spans_before(chars, word, a, wa, end);
            assert(run_spans(chars, i, end) =~= run_spans(a, i, end));
        } else {
            lemma_spans_before(chars, word, a, wa, i + 1);
        }
    }
    assert(spans_from(chars, word, i) =~= spans_from(a, wa, i) + rest);
}

/// A separator splits a text: its tokens are those of the text before it,
/// followed by those of the text behind it, which stand further into the text.
pub proof fn law_separator_splits(
    a: Seq<char>,
    wa: Seq<bool>,
    separator: char,
    b: Seq<char>,
    wb: Seq<bool>,
)
    requires
        wa.len() == a.len(),
        wb.len() == b.len(),
    ensures
        tokens_of(a.push(separator) + b, wa.push(false) + wb) == tokens_of(a, wa)
            + tokens_of(b, wb).map_values(
            |token: TokenView|
                moved(
                    token,
                    encode_utf8(a.push(separator)).len() as int,
                    tokens_of(a, wa).len() as int,
                ),
        ),
{
    let start = a.push(separator);
    let chars = start + b;
    let word = wa.push(false) + wb;
    let by = start.len() as int;
    assert(chars.take(a.len() as int) =~= a);
    assert(word.take(a.len() as int) =~= wa);
    assert(chars.skip(by) =~= b);
    assert(word.skip(by) =~= wb);
    lemma_spans_before(chars, word, a, wa, 0);
    lemma_spans_behind(chars, word, b, wb, by, 0);
    lemma_spans_proper(a, wa, 0);
    lemma_spans_proper(b, wb, 0);
    let first = spans(a, wa);
    let second = spans(b, wb);
    let all = spans(chars, word);
    assert(all =~= first + shifted(second, by));
    let bytes = encode_utf8(start).len() as int;
    let count = tokens_of(a, wa).len() as int;
    let left = tokens_of(chars, word);
    let right = tokens_of(a, wa) + tokens_of(b, wb).map_values(
        |token: TokenView| moved(token, bytes, count),
    );
    assert(left.len() == right.len());
    assert forall|k: int| 0 <= k < left.len() implies left[k] == right[k] by {
        if k < first.len() {
            let span = first[k];
            assert(proper(a, wa, span));
            assert(all[k] == span);
            assert(chars.take(span.0) =~= a.take(span.0));
            assert(chars.take(span.1) =~= a.take(span.1));
            assert(chars.subrange(span.0, span.1) =~= a.subrange(span.0, span.1));
        } else {
            let span = second[k - first.len()];
            assert(proper(b, wb, span));
            assert(all[k] == (span.0 + by, span.1 + by));
            assert(chars.take(span.0 + by) =~= start + b.take(span.0));
            assert(chars.take(span.1 + by) =~= start + b.take(span.1));
            lemma_encode_concat(start, b.take(span.0));
            lemma_encode_concat(start, b.take(span.1));
            assert(chars.subrange(span.0 + by, span.1 + by) =~= b.subrange(span.0, span.1));
        }
    }
    assert(left =~= right);
}

/// The scripts without spaces, by code points: Chinese characters, the two
/// Japanese syllabaries, and Korean letters and syllables.
pub proof fn law_scripts_by_code_point(c: char)
    ensures
        script(c) == Some(Script::Han) <==> (0x3400 <= c as u32 && c as u32 <= 0x4DBF) || (0x4E00
            <= c as u32 && c as u32 <= 0x9FFF) || (0xF900 <= c as u32 && c as u32 <= 0xFAFF) || (
        0x20000 <= c as u32 && c as u32 <= 0x2FA1F),
        script(c) == Some(Script::Hiragana) <==> 0x3040 <= c as u32 && c as u32 <= 0x309F,
        script(c) == Some(Script::Katakana) <==> (0x30A0 <= c as u32 && c as u32 <= 0x30FF) || (
        0x31F0 <= c as u32 && c as u32 <= 0x31FF),
        script(c) == Some(Script::Hangul) <==> (0x1100 <= c as u32 && c as u32 <= 0x11FF) || (0x3130
            <= c as u32 && c as u32 <= 0x318F) || (0xA960 <= c as u32 && c as u32 <= 0xA97F) || (
        0xAC00 <= c as u32 && c as u32 <= 0xD7FF),
{
}

/// A text is split at the characters that are not alphanumeric, and at no
/// others.
pub proof fn law_separators(chars: Seq<char>, i: int)
    requires
        0 <= i < chars.len(),
    ensures
        marks(chars).len() == chars.len(),
        marks(chars)[i] <==> alphanumeric(chars[i]),
{
}

/// A token stands where its characters stand: the text is theirs, and the
/// offsets count the bytes before the first one and up to the last one.
pub proof fn law_tokens_stand_at_their_spans(chars: Seq<char>, word: Seq<bool>, k: int)
    requires
        0 <= k < spans(chars, word).len(),
    ensures
        tokens_of(chars, word).len() == spans(chars, word).len(),
        ({
            let token = tokens_of(chars, word)[k];
            let span = spans(chars, word)[k];
            &&& token.text == chars.subrange(span.0, span.1)
            &&& token.offset_from == encode_utf8(chars.take(span.0)).len()
            &&& token.offset_to == encode_utf8(chars.take(span.1)).len()
        }),
{
}

/// A word is a whole word: its token has all characters up to the next
/// separators, or to the next characters of a script without spaces, and only
/// these.
pub proof fn law_words_are_whole(chars: Seq<char>, word: Seq<bool>, k: int)
    requires
        word.len() == chars.len(),
        0 <= k < spans(chars, word).len(),
        script(chars[spans(chars, word)[k].0]) is None,
    ensures
        ({
            let (a, b) = spans(chars, word)[k];
            &&& 0 <= a < b <= chars.len()
            &&& forall|i: int| a <= i < b ==> word[i] && script(#[trigger] chars[i]) is None
            &&& a > 0 ==> !word[a - 1] || script(chars[a - 1]) is Some
            &&& b < chars.len() ==> !word[b] || script(chars[b]) is Some
        }),
{
    lemma_spans_proper(chars, word, 0);
    let span = spans(chars, word)[k];
    assert(proper(chars, word, span));
    let (a, b) = span;
    assert forall|i: int| a <= i < b implies word[i] && script(#[trigger] chars[i]) is None by {
        assert(word[i]);
    }
    assert(word[a] && word[b - 1]);
    assert(script(chars[b - 1]) is None);
}

/// A token of a script without spaces has two characters, or one that has no
/// neighbour of its script, all of one script.
pub proof fn law_pairs_stay_in_their_script(chars: Seq<char>, word: Seq<bool>, k: int)
    requires
        word.len() == chars.len(),
        0 <= k < spans(chars, word).len(),
        script(chars[spans(chars, word)[k].0]) is Some,
    ensures
        ({
            let (a, b) = spans(chars, word)[k];
            &&& 0 <= a < b <= chars.len()
            &&& b == a + 1 || b == a + 2
            &&& word[a] && word[b - 1]
            &&& script(chars[a]) == script(chars[b - 1])
            &&& b == a + 1 && a > 0 ==> !word[a - 1] || script(chars[a - 1]) != script(chars[a])
            &&& b == a + 1 && b < chars.len() ==> !word[b] || script(chars[b]) != script(chars[a])
        }),
{
    lemma_spans_proper(chars, word, 0);
    let span = spans(chars, word)[k];
    assert(proper(chars, word, span));
    let (a, b) = span;
    assert(word[a] && word[b - 1]);
    assert(script(chars[b - 1]) == script(chars[a]));
}

/// Two neighbours of one script without spaces, neither of which is a
/// separator, are a token.
pub proof fn law_neighbours_are_a_token(chars: Seq<char>, word: Seq<bool>, i: int)
    requires
        word.len() == chars.len(),
        0 <= i,
        i + 1 < chars.len(),
        word[i],
        word[i + 1],
        script(chars[i]) is Some,
        script(chars[i]) == script(chars[i + 1]),
    ensures
        spans(chars, word).contains((i, i + 2)),
{
    law_every_pair_is_found(chars, word, i);
}

/// A token says what it holds.
pub proof fn law_token_view(token: Token)
    ensures
        token@.offset_from == token.offset_from,
        token@.offset_to == token.offset_to,
        token@.position == token.position,
        token@.text == token.text@,
        token@.position_length == token.position_length,
{
}

} // verus!
