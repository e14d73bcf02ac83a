use transcript_search::orchestrate::{search, ContentText, Segment, Transcript};
use transcript_search::rank::QueryResult;
use transcript_search::searcher::{Index, Scorer, SpaceLower, TextOf};
use transcript_search::text::tokenizer;

/// The BM25 ranking strategy: term-frequency saturation constant `k`,
/// length-normalization constant `b`.  Scores are reported as the bit
/// pattern of the (always non-negative) accumulated relevance, which
/// preserves order and maps exactly zero relevance to code zero.
struct BM25 {
    k: f64,
    b: f64,
}

impl BM25 {
    fn new() -> Self {
        BM25 { k: 1.5, b: 0.75 }
    }

    fn from(k: f64, b: f64) -> Self {
        BM25 { k, b }
    }
}

impl Scorer for BM25 {
    fn score(&self, n: usize, avg_doc_len: usize, dl: usize, kws: &Vec<(usize, usize)>) -> u64 {
        if avg_doc_len == 0 {
            return 0;
        }
        let mut total = 0.0_f64;
        for &(n_qi, tf) in kws.iter() {
            let idf = (((n as f64) - (n_qi as f64) + 0.5) / ((n_qi as f64) + 0.5) + 1.0).ln();
            let tf = tf as f64;
            let dl = dl as f64;
            let partial = idf * (tf * (self.k + 1.0))
                / (tf + self.k * (1.0 - self.b + self.b * dl / (avg_doc_len as f64)));
            total += partial;
        }
        total.to_bits()
    }
}

/// Accessor for plain string documents: the document is its own text.
struct Ident;

impl TextOf<String> for Ident {
    fn text(&self, doc: &String) -> String {
        doc.clone()
    }
}

fn string_index(texts: &[&str]) -> Index<String, SpaceLower, Ident> {
    let docs: Vec<String> = texts.iter().map(|t| t.to_string()).collect();
    Index::from(docs, SpaceLower, Ident)
}

#[test]
fn tokenizer_splits_and_lowercases() {
    assert_eq!(tokenizer("The CAT Sat".to_string()), vec!["the", "cat", "sat"]);
}

#[test]
fn tokenizer_empty_text_gives_one_empty_token() {
    assert_eq!(tokenizer(String::new()), vec![""]);
}

#[test]
fn tokenizer_keeps_empty_pieces_between_spaces() {
    assert_eq!(tokenizer("a  b ".to_string()), vec!["a", "", "b", ""]);
}

#[test]
fn query_single_match() {
    let index = string_index(&["the cat sat", "the dog sat"]);
    let results = index.query("cat", &BM25::new());
    assert_eq!(results.len(), 1);
    assert_eq!(results[0].id, 0);
    assert!(results[0].score > 0);
}

#[test]
fn query_is_case_insensitive() {
    let index = string_index(&["the cat sat", "the dog sat"]);
    let results = index.query("CAT", &BM25::new());
    assert_eq!(results.len(), 1);
    assert_eq!(results[0].id, 0);
}

#[test]
fn empty_index_yields_empty_results() {
    let index: Index<String, SpaceLower, Ident> = Index::new(SpaceLower, Ident);
    assert_eq!(index.len(), 0);
    let results = index.query("anything at all", &BM25::new());
    assert!(results.is_empty());
}

#[test]
fn empty_collection_yields_empty_results() {
    let index: Index<String, SpaceLower, Ident> = Index::from(Vec::new(), SpaceLower, Ident);
    let results = index.query("anything", &BM25::new());
    assert!(results.is_empty());
}

#[test]
fn absent_token_yields_empty_results() {
    let index = string_index(&["the cat sat", "the dog sat"]);
    let results = index.query("zebra", &BM25::new());
    assert!(results.is_empty());
}

#[test]
fn common_token_scores_all_documents_equally() {
    let index = string_index(&["the cat", "the dog"]);
    let results = index.query("the", &BM25::new());
    assert_eq!(results.len(), 2);
    assert_eq!(results[0].score, results[1].score);
    assert_eq!(results[0].id, 0);
    assert_eq!(results[1].id, 1);
}

#[test]
fn repeated_query_yields_identical_results() {
    let index = string_index(&["apple banana", "banana kiwi", "kiwi pear"]);
    let first: Vec<QueryResult> = index.query("banana kiwi", &BM25::new());
    let second: Vec<QueryResult> = index.query("banana kiwi", &BM25::new());
    assert_eq!(first, second);
}

#[test]
fn results_sorted_by_score_descending() {
    let index = string_index(&["apple banana", "banana kiwi", "banana banana"]);
    let results = index.query("apple banana", &BM25::new());
    for w in results.windows(2) {
        assert!(w[0].score >= w[1].score);
    }
}

#[test]
fn document_with_both_keywords_ranks_first() {
    let index = string_index(&["apple banana", "banana kiwi"]);
    let results = index.query("apple banana", &BM25::new());
    assert_eq!(results.len(), 2);
    assert_eq!(results[0].id, 0);
    assert!(results[0].score > results[1].score);
}

#[test]
fn custom_constants_accepted() {
    let index = string_index(&["hello world", "goodbye world"]);
    let results = index.query("world", &BM25::from(1.5, 0.75));
    assert_eq!(results.len(), 2);
}

#[test]
fn add_document_then_query() {
    let mut index: Index<String, SpaceLower, Ident> = Index::new(SpaceLower, Ident);
    index.add_document("Hello world".to_string());
    index.add_document("Goodbye world".to_string());
    assert_eq!(index.len(), 2);
    let results = index.query("world", &BM25::new());
    assert_eq!(results.len(), 2);
}

#[test]
fn len_counts_documents() {
    let mut index = string_index(&["one", "two", "three"]);
    assert_eq!(index.len(), 3);
    index.add_document("four".to_string());
    assert_eq!(index.len(), 4);
}

fn transcript(id: &str, segments: &[(&str, f32)]) -> Transcript {
    let content = segments
        .iter()
        .map(|(text, _)| text.to_string())
        .collect::<Vec<String>>()
        .join(" ");
    Transcript {
        id: id.to_string(),
        content,
        segments: segments
            .iter()
            .map(|(text, start)| Segment { text: text.to_string(), start: start.to_bits() })
            .collect(),
    }
}

fn transcript_index(transcripts: &Vec<Transcript>) -> Index<Transcript, SpaceLower, ContentText> {
    let copy: Vec<Transcript> = transcripts.clone();
    Index::from(copy, SpaceLower, ContentText)
}

#[test]
fn search_localizes_best_segment() {
    let transcripts = vec![transcript("a", &[("hello world", 0.0), ("goodbye world", 5.0)])];
    let index = transcript_index(&transcripts);
    let result = search("goodbye", &transcripts, &index, &BM25::new());
    assert_eq!(result.videos.len(), 1);
    assert_eq!(result.videos[0].id, "a");
    assert_eq!(result.videos[0].start, 5.0_f32.to_bits());
    assert_eq!(result.msg, "Found 1 result for: \"goodbye\"");
}

#[test]
fn search_no_match_message_stays_singular() {
    let transcripts = vec![transcript("a", &[("hello world", 0.0)])];
    let index = transcript_index(&transcripts);
    let result = search("zebra", &transcripts, &index, &BM25::new());
    assert!(result.videos.is_empty());
    assert_eq!(result.msg, "Found 0 result for: \"zebra\"");
}

#[test]
fn search_plural_message_above_one_result() {
    let transcripts = vec![
        transcript("a", &[("apples are sweet", 1.0)]),
        transcript("b", &[("apples are sour", 2.0)]),
    ];
    let index = transcript_index(&transcripts);
    let result = search("apples", &transcripts, &index, &BM25::new());
    assert_eq!(result.videos.len(), 2);
    assert_eq!(result.msg, "Found 2 results for: \"apples\"");
}

#[test]
fn search_skips_transcript_whose_segments_lack_the_terms() {
    // The outer index ranks the full concatenated text, which here
    // carries a word that no single segment contains.
    let odd = Transcript {
        id: "odd".to_string(),
        content: "hidden treasure".to_string(),
        segments: vec![Segment { text: "nothing here".to_string(), start: 0.0_f32.to_bits() }],
    };
    let transcripts = vec![odd];
    let index = transcript_index(&transcripts);
    let result = search("treasure", &transcripts, &index, &BM25::new());
    assert!(result.videos.is_empty());
    assert_eq!(result.msg, "Found 0 result for: \"treasure\"");
}

#[test]
fn search_keeps_outer_ranking_order() {
    let transcripts = vec![
        transcript("weak", &[("fish and chips", 1.0), ("fish again", 2.0)]),
        transcript("strong", &[("fish fish fish", 3.0), ("no match", 4.0)]),
    ];
    let index = transcript_index(&transcripts);
    let result = search("fish fish", &transcripts, &index, &BM25::new());
    assert_eq!(result.videos.len(), 2);
    assert_eq!(result.videos[0].id, "strong");
    assert_eq!(result.videos[0].start, 3.0_f32.to_bits());
    assert_eq!(result.videos[1].id, "weak");
}

#[test]
fn search_on_empty_transcript_list() {
    let transcripts: Vec<Transcript> = Vec::new();
    let index = transcript_index(&transcripts);
    let result = search("anything", &transcripts, &index, &BM25::new());
    assert!(result.videos.is_empty());
    assert_eq!(result.msg, "Found 0 result for: \"anything\"");
}

#[test]
fn equal_documents_tie_in_index_order() {
    let index = string_index(&["same words here", "same words here"]);
    let results = index.query("words", &BM25::new());
    assert_eq!(results.len(), 2);
    assert_eq!(results[0].score, results[1].score);
    assert_eq!(results[0].id, 0);
    assert_eq!(results[1].id, 1);
}

#[test]
fn search_counts_above_nine_format_with_two_digits() {
    let mut transcripts = Vec::new();
    for i in 0..12 {
        transcripts.push(transcript(&format!("t{}", i), &[("ripe apple", 1.0)]));
    }
    let index = transcript_index(&transcripts);
    let result = search("apple", &transcripts, &index, &BM25::new());
    assert_eq!(result.videos.len(), 12);
    assert_eq!(result.msg, "Found 12 results for: \"apple\"");
}

#[test]
fn bm25_score_matches_hand_computed_value() {
    // Corpus: two documents of three tokens each, so avg_doc_len = 3.
    // "cat" occurs in one document (n_qi = 1), once (tf = 1, dl = 3).
    let index = string_index(&["the cat sat", "the dog sat"]);
    let results = index.query("cat", &BM25::new());
    assert_eq!(results.len(), 1);
    let idf = ((2.0_f64 - 1.0 + 0.5) / (1.0 + 0.5) + 1.0).ln();
    let expected = idf * (1.0 * (1.5 + 1.0)) / (1.0 + 1.5 * (1.0 - 0.75 + 0.75 * 3.0 / 3.0));
    assert_eq!(results[0].score, expected.to_bits());
}
