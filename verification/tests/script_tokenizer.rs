//! Text becomes words and pairs of characters.

use seshat_index::script_tokenizer::{
    script_of, texts, tokenize, tokenize_marked, Script, ScriptTokenizer, Token,
};

#[test]
fn words_stay_words() {
    assert_eq!(
        texts("Our Kubernetes cluster"),
        ["Our", "Kubernetes", "cluster"]
    );
    assert_eq!(texts("e-mail v2.3.1"), ["e", "mail", "v2", "3", "1"]);
    assert_eq!(texts("Straße, Café!"), ["Straße", "Café"]);
}

#[test]
fn cjk_text_becomes_pairs() {
    // Chinese: one run of five characters.
    assert_eq!(texts("我是中国人"), ["我是", "是中", "中国", "国人"]);

    // Japanese: kanji, katakana and hiragana are separate runs.
    assert_eq!(
        texts("東京タワーに行きました"),
        ["東京", "タワ", "ワー", "に", "行", "きま", "まし", "した"]
    );

    // Korean.
    assert_eq!(texts("안녕하세요"), ["안녕", "녕하", "하세", "세요"]);
}

#[test]
fn scripts_are_mixed_in_one_text() {
    assert_eq!(texts("東京 is great"), ["東京", "is", "great"]);
    assert_eq!(
        texts("Kubernetes 클러스터"),
        ["Kubernetes", "클러", "러스", "스터"]
    );
}

#[test]
fn positions_follow_each_other() {
    let tokens = tokenize("東京タワー is great");
    let positions: Vec<usize> = tokens.iter().map(|token| token.position).collect();
    assert_eq!(positions, [0, 1, 2, 3, 4]);

    // The offsets point back at the original text.
    let text = "東京タワー is";
    for token in tokenize(text) {
        assert_eq!(text[token.offset_from..token.offset_to], token.text);
    }
}

#[test]
fn separators_alone_give_no_tokens() {
    assert!(texts("").is_empty());
    assert!(texts(" -- :) ").is_empty());
}

#[test]
fn tokens_know_where_they_stand() {
    assert_eq!(
        tokenize("é, 東京タ"),
        [
            Token {
                offset_from: 0,
                offset_to: 2,
                position: 0,
                text: "é".to_string(),
                position_length: 1,
            },
            Token {
                offset_from: 4,
                offset_to: 10,
                position: 1,
                text: "東京".to_string(),
                position_length: 1,
            },
            Token {
                offset_from: 10,
                offset_to: 13,
                position: 2,
                text: "タ".to_string(),
                position_length: 1,
            },
        ]
    );
}

#[test]
fn words_follow_the_marks() {
    let chars: Vec<char> = "ab東京c".chars().collect();
    let found = |marks: Vec<bool>| {
        tokenize_marked(&chars, &marks)
            .into_iter()
            .map(|token| token.text)
            .collect::<Vec<String>>()
    };

    assert_eq!(found(vec![true; 5]), ["ab", "東京", "c"]);
    assert_eq!(found(vec![true, false, true, true, true]), ["a", "東京", "c"]);
    assert_eq!(found(vec![true, true, true, false, true]), ["ab", "東", "c"]);
    assert!(found(vec![false; 5]).is_empty());
}

#[test]
fn scripts_have_exact_borders() {
    let expect = |c: char, script: Option<Script>| {
        assert!(script_of(c) == script, "Wrong script for {:?}", c);
    };

    expect('\u{33FF}', None);
    expect('\u{3400}', Some(Script::Han));
    expect('\u{4DBF}', Some(Script::Han));
    expect('\u{4DC0}', None);
    expect('\u{9FFF}', Some(Script::Han));
    expect('\u{A000}', None);
    expect('\u{F900}', Some(Script::Han));
    expect('\u{FAFF}', Some(Script::Han));
    expect('\u{FB00}', None);
    expect('\u{20000}', Some(Script::Han));
    expect('\u{2FA1F}', Some(Script::Han));
    expect('\u{2FA20}', None);
    expect('\u{303F}', None);
    expect('\u{3040}', Some(Script::Hiragana));
    expect('\u{309F}', Some(Script::Hiragana));
    expect('\u{30A0}', Some(Script::Katakana));
    expect('\u{30FF}', Some(Script::Katakana));
    expect('\u{3100}', None);
    expect('\u{31EF}', None);
    expect('\u{31F0}', Some(Script::Katakana));
    expect('\u{31FF}', Some(Script::Katakana));
    expect('\u{3200}', None);
    expect('\u{10FF}', None);
    expect('\u{1100}', Some(Script::Hangul));
    expect('\u{11FF}', Some(Script::Hangul));
    expect('\u{1200}', None);
    expect('\u{3130}', Some(Script::Hangul));
    expect('\u{318F}', Some(Script::Hangul));
    expect('\u{A960}', Some(Script::Hangul));
    expect('\u{A97F}', Some(Script::Hangul));
    expect('\u{AC00}', Some(Script::Hangul));
    expect('\u{D7FF}', Some(Script::Hangul));
    expect('a', None);
}

#[test]
fn stream_hands_out_all_tokens() {
    assert!(ScriptTokenizer.token_stream(" -- ").is_empty());
    let mut stream = ScriptTokenizer.token_stream("two words");
    assert!(!stream.is_empty());
    assert_eq!(stream.token().text, "two");
    assert!(stream.advance());
    assert_eq!(stream.token().text, "two");
    stream.token_mut().text = "2".to_string();
    assert_eq!(stream.token().text, "2");
    assert!(stream.advance());
    assert_eq!(stream.token().text, "words");
    assert!(!stream.advance());
    assert_eq!(stream.token().text, "words");
}

#[test]
fn every_pair_of_a_run_is_found() {
    let text = "我是中国人";
    let found = texts(text);
    let chars: Vec<char> = text.chars().collect();
    for pair in chars.windows(2) {
        let pair: String = pair.iter().collect();
        assert!(found.contains(&pair), "No token for {:?}", pair);
    }
}

#[test]
fn every_letter_is_in_a_token() {
    let text = "東京タワー is gr8, 안녕";
    let tokens = tokenize(text);
    for (offset, c) in text.char_indices() {
        let found = tokens
            .iter()
            .any(|token| token.offset_from <= offset && offset < token.offset_to);
        assert_eq!(found, c.is_alphanumeric(), "{:?} at {}", c, offset);
    }
}

#[test]
fn separators_split_a_text() {
    let (before, behind) = ("東京タ gr8", "é 안녕하");
    let first = tokenize(before);
    let mut expected = first.clone();
    for mut token in tokenize(behind) {
        token.offset_from += before.len() + 1;
        token.offset_to += before.len() + 1;
        token.position += first.len();
        expected.push(token);
    }
    assert_eq!(tokenize(&format!("{}-{}", before, behind)), expected);
}
