use snippet::HighlightSection;
use snippet::Snippet;
use snippet::SnippetGenerator;
use snippet::TermWeightTable;
use snippet::Token;
use snippet::join_field_values;
use snippet::search_fragments;
use snippet::select_best_fragment_combination;

fn tok(text: &str, from: usize, to: usize) -> Token {
    Token { text: text.to_string(), offset_from: from, offset_to: to }
}

fn table(entries: &[(&str, u64)]) -> TermWeightTable {
    let mut t = TermWeightTable::new();
    for (term, weight) in entries {
        t.insert(term.to_string(), *weight);
    }
    t
}

fn fox_text() -> &'static str {
    "the quick brown fox jumps over the lazy dog"
}

fn fox_tokens() -> Vec<Token> {
    vec![
        tok("the", 0, 3),
        tok("quick", 4, 9),
        tok("brown", 10, 15),
        tok("fox", 16, 19),
        tok("jumps", 20, 25),
        tok("over", 26, 30),
        tok("the", 31, 34),
        tok("lazy", 35, 39),
        tok("dog", 40, 43),
    ]
}

#[test]
fn highlight_section_bounds() {
    let h = HighlightSection::new(2, 5);
    assert_eq!(h.bounds(), (2, 5));
}

#[test]
fn empty_snippet_is_empty() {
    let s = Snippet::empty();
    assert_eq!(s.fragments(), "");
    assert!(s.highlighted().is_empty());
    assert_eq!(s.to_mark(), "");
    assert_eq!(s.to_html(), "");
}

#[test]
fn no_match_yields_empty() {
    let terms = table(&[("zebra", 1)]);
    let candidates = search_fragments(&fox_tokens(), &terms, 20);
    assert!(candidates.is_empty());

    let gen = SnippetGenerator::create(table(&[("zebra", 1)]));
    let s = gen.snippet(fox_text(), &fox_tokens());
    assert_eq!(s.fragments(), "");
    assert!(s.highlighted().is_empty());
}

#[test]
fn empty_table_empty_snippet() {
    let gen = SnippetGenerator::create(TermWeightTable::new());
    let s = gen.snippet(fox_text(), &fox_tokens());
    assert_eq!(s.fragments(), "");
    assert!(s.highlighted().is_empty());
}

#[test]
fn match_yields_candidates_within_bounds() {
    let terms = table(&[("fox", 1)]);
    let candidates = search_fragments(&fox_tokens(), &terms, 20);
    assert!(!candidates.is_empty());
    for c in candidates.iter() {
        assert!(c.start_offset() <= c.stop_offset());
        for h in c.highlighted().iter() {
            let (start, stop) = h.bounds();
            assert!(c.start_offset() <= start);
            assert!(start <= stop);
            assert!(stop <= c.stop_offset());
        }
    }
}

#[test]
fn tie_break_prefers_earliest() {
    // With a bound of 15 this stream closes one scoring window at
    // (5, 20) and another at (30, 45), both with the same score.
    let text = "0123456789012345678901234567890123456789012345";
    let tokens = vec![tok("pad", 0, 2), tok("x", 5, 20), tok("x", 30, 45)];
    let terms = table(&[("x", 7)]);
    let candidates = search_fragments(&tokens, &terms, 15);
    assert_eq!(candidates.len(), 2);
    assert_eq!(candidates[0].start_offset(), 5);
    assert_eq!(candidates[0].stop_offset(), 20);
    assert_eq!(candidates[1].start_offset(), 30);
    assert_eq!(candidates[1].stop_offset(), 45);
    assert_eq!(candidates[0].score(), candidates[1].score());

    let s = select_best_fragment_combination(&candidates, text);
    assert_eq!(s.fragments(), &text[5..20]);
    assert_eq!(s.highlighted().len(), 1);
    assert_eq!(s.highlighted()[0].bounds(), (0, 15));
}

#[test]
fn end_to_end_fox() {
    let mut gen = SnippetGenerator::create(table(&[("fox", 1)]));
    gen.set_max_num_chars(20);
    let s = gen.snippet(fox_text(), &fox_tokens());
    assert_eq!(s.fragments(), "the quick brown fox");
    assert!(s.fragments().contains("fox"));
    let html = s.to_html();
    assert_eq!(html, "the quick brown <b>fox</b>");
    assert_eq!(html.matches("<b>fox</b>").count(), 1);
}

#[test]
fn default_bound_takes_whole_text() {
    let gen = SnippetGenerator::create(table(&[("fox", 1)]));
    let s = gen.snippet(fox_text(), &fox_tokens());
    assert_eq!(s.fragments(), fox_text());
    assert_eq!(s.highlighted().len(), 1);
    assert_eq!(s.highlighted()[0].bounds(), (16, 19));
}

#[test]
fn two_terms_score_sum() {
    let text = "one fox and a dog here";
    let tokens = vec![
        tok("one", 0, 3),
        tok("fox", 4, 7),
        tok("and", 8, 11),
        tok("a", 12, 13),
        tok("dog", 14, 17),
        tok("here", 18, 22),
    ];
    let terms = table(&[("fox", 3), ("dog", 5)]);
    let candidates = search_fragments(&tokens, &terms, 150);
    assert_eq!(candidates.len(), 1);
    assert_eq!(candidates[0].score(), 3 + 5);

    let gen = SnippetGenerator::create(table(&[("fox", 3), ("dog", 5)]));
    let s = gen.snippet(text, &tokens);
    assert_eq!(s.fragments(), text);
    let spans: Vec<(usize, usize)> = s.highlighted().iter().map(|h| h.bounds()).collect();
    assert_eq!(spans, vec![(4, 7), (14, 17)]);
}

#[test]
fn roundtrip_reconstructs_text() {
    let gen = SnippetGenerator::create(table(&[("fox", 3), ("dog", 5)]));
    let s = gen.snippet(fox_text(), &fox_tokens());
    let text = s.fragments();
    let mut rebuilt = String::new();
    let mut cursor = 0;
    for h in s.highlighted().iter() {
        let (start, stop) = h.bounds();
        rebuilt.push_str(&text[cursor..start]);
        rebuilt.push_str(&text[start..stop]);
        cursor = stop;
    }
    rebuilt.push_str(&text[cursor..]);
    assert_eq!(rebuilt, text);
}

#[test]
fn escaped_markup_no_raw_specials() {
    let text = "a <b> & 'q' \"z\" fox";
    let tokens = vec![
        tok("a", 0, 1),
        tok("b", 3, 4),
        tok("q", 9, 10),
        tok("z", 13, 14),
        tok("fox", 16, 19),
    ];
    let gen = SnippetGenerator::create(table(&[("fox", 1)]));
    let s = gen.snippet(text, &tokens);
    assert_eq!(s.fragments(), text);

    let html = s.to_html();
    assert_eq!(html, "a &lt;b&gt; &amp; &#x27;q&#x27; &quot;z&quot; <b>fox</b>");
    let stripped = html.replace("<b>", "").replace("</b>", "");
    assert!(!stripped.contains('<'));
    assert!(!stripped.contains('>'));
    assert!(!stripped.contains('"'));
    assert!(!stripped.contains('\''));

    let raw = s.to_mark();
    assert_eq!(raw, "a <b> & 'q' \"z\" <b>fox</b>");
}

#[test]
fn lowercase_normalization_matches() {
    let text = "FOX";
    let tokens = vec![tok("FOX", 0, 3)];
    let gen = SnippetGenerator::create(table(&[("fox", 2)]));
    let s = gen.snippet(text, &tokens);
    assert_eq!(s.fragments(), "FOX");
    assert_eq!(s.highlighted().len(), 1);
    assert_eq!(s.highlighted()[0].bounds(), (0, 3));
}

#[test]
fn insert_replaces_weight() {
    let mut t = TermWeightTable::new();
    t.insert("t".to_string(), 1);
    t.insert("t".to_string(), 5);
    assert_eq!(t.get(&"t".to_string()), Some(5));
    assert_eq!(t.get(&"u".to_string()), None);

    let tokens = vec![tok("t", 0, 1)];
    let candidates = search_fragments(&tokens, &t, 150);
    assert_eq!(candidates.len(), 1);
    assert_eq!(candidates[0].score(), 5);
}

#[test]
fn join_field_values_spaces() {
    assert_eq!(join_field_values(&Vec::new()), "");
    assert_eq!(join_field_values(&vec!["a".to_string()]), "a");
    assert_eq!(
        join_field_values(&vec!["a".to_string(), "b".to_string(), "c".to_string()]),
        "a b c"
    );
}

#[test]
fn multibyte_offsets_are_characters() {
    // Offsets count characters, not bytes.
    let text = "a\u{e9}\u{e9} fox";
    let tokens = vec![tok("a\u{e9}\u{e9}", 0, 3), tok("fox", 4, 7)];
    let gen = SnippetGenerator::create(table(&[("fox", 1)]));
    let s = gen.snippet(text, &tokens);
    assert_eq!(s.fragments(), text);
    assert_eq!(s.highlighted()[0].bounds(), (4, 7));
    assert_eq!(s.to_html(), "a\u{e9}\u{e9} <b>fox</b>");
}

#[test]
fn empty_text_no_tokens() {
    let gen = SnippetGenerator::create(table(&[("fox", 1)]));
    let s = gen.snippet("", &Vec::new());
    assert_eq!(s.fragments(), "");
    assert!(s.highlighted().is_empty());
}

#[test]
fn zero_length_bound_keeps_single_token_windows() {
    let mut gen = SnippetGenerator::create(table(&[("fox", 1)]));
    gen.set_max_num_chars(0);
    let s = gen.snippet(fox_text(), &fox_tokens());
    assert_eq!(s.fragments(), "fox");
    assert_eq!(s.highlighted().len(), 1);
    assert_eq!(s.highlighted()[0].bounds(), (0, 3));
}

#[test]
fn score_addition_saturates() {
    let text = "x x";
    let tokens = vec![tok("x", 0, 1), tok("x", 2, 3)];
    let terms = table(&[("x", u64::MAX)]);
    let candidates = search_fragments(&tokens, &terms, 150);
    assert_eq!(candidates.len(), 1);
    assert_eq!(candidates[0].score(), u64::MAX);
}
