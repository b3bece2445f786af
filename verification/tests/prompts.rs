use bebe_ai::document::mv::MieuxVivreMetadata;
use bebe_ai::embedding::batch_texts;
use bebe_ai::llm::{
    build_answer_prompt, build_context, build_search_query_prompt, format_source_line,
    unique_strings, with_sources, GeminiCandidate, GeminiContent, GeminiPart, GeminiRequest,
    GeminiResponse, SYSTEM_PROMPT,
};

#[test]
fn from_prompt_wraps_the_prompt_once() {
    let r = GeminiRequest::from_prompt("How often should a newborn feed?");
    assert_eq!(r.contents.len(), 1);
    assert_eq!(r.contents[0].parts.len(), 1);
    assert_eq!(r.contents[0].parts[0].text, "How often should a newborn feed?");
    assert_eq!(r.system_instruction.parts.len(), 1);
    assert_eq!(r.system_instruction.parts[0].text, SYSTEM_PROMPT);
}

#[test]
fn first_text_reads_the_first_candidate() {
    let resp = GeminiResponse {
        candidates: vec![GeminiCandidate {
            content: GeminiContent {
                parts: vec![
                    GeminiPart {
                        text: "answer".to_string(),
                    },
                    GeminiPart {
                        text: "extra".to_string(),
                    },
                ],
            },
        }],
    };
    assert_eq!(resp.first_text(), Some("answer".to_string()));
}

#[test]
fn first_text_is_none_without_candidates() {
    let empty = GeminiResponse { candidates: vec![] };
    assert_eq!(empty.first_text(), None);
    let no_parts = GeminiResponse {
        candidates: vec![GeminiCandidate {
            content: GeminiContent { parts: vec![] },
        }],
    };
    assert_eq!(no_parts.first_text(), None);
}

#[test]
fn search_query_prompt_is_exact() {
    assert_eq!(
        build_search_query_prompt("sommeil du nourrisson"),
        "Convert the following user query to a search query: sommeil du nourrisson. \
         Only respond with the search query, nothing else."
    );
}

#[test]
fn context_block_quotes_each_passage() {
    let texts = vec!["one".to_string(), "two".to_string()];
    assert_eq!(
        build_context(&texts),
        "Context from mieux vivre: one\n\nContext from mieux vivre: two\n\n"
    );
    assert_eq!(build_context(&vec![]), "");
}

#[test]
fn answer_prompt_is_exact() {
    assert_eq!(
        build_answer_prompt("CTX", "Q?"),
        "Using the following context from mieux vivre:\n\nCTX\n\nWhat is the answer to this \
         user query: Q?. Please quote the mieux vivre context in your answer when possible."
    );
}

#[test]
fn source_line_is_exact() {
    let m = MieuxVivreMetadata {
        title: "T".to_string(),
        section: "S".to_string(),
        subsection: "SS".to_string(),
        heading: Some("H".to_string()),
        url: "U".to_string(),
    };
    assert_eq!(
        format_source_line(&m),
        "Titre: T\nSection: S\nSous-section: SS\nURL: U\n\n"
    );
}

#[test]
fn sources_are_appended_after_the_answer() {
    assert_eq!(with_sources("A", "B"), "A\n\nSources:\n\nB");
}

#[test]
fn unique_keeps_first_occurrences_in_order() {
    let v = vec![
        "a".to_string(),
        "b".to_string(),
        "a".to_string(),
        "c".to_string(),
        "b".to_string(),
    ];
    assert_eq!(
        unique_strings(&v),
        vec!["a".to_string(), "b".to_string(), "c".to_string()]
    );
    assert_eq!(unique_strings(&vec![]), Vec::<String>::new());
}

#[test]
fn batches_are_full_then_remainder() {
    let texts: Vec<String> = (0..250).map(|i| format!("t{}", i)).collect();
    let batches = batch_texts(texts.clone(), 100);
    assert_eq!(batches.len(), 3);
    assert_eq!(batches[0].len(), 100);
    assert_eq!(batches[1].len(), 100);
    assert_eq!(batches[2].len(), 50);
    let flat: Vec<String> = batches.into_iter().flatten().collect();
    assert_eq!(flat, texts);
}

#[test]
fn batching_edge_cases() {
    assert_eq!(batch_texts(vec![], 100).len(), 0);
    let one = batch_texts(vec!["x".to_string()], 1);
    assert_eq!(one, vec![vec!["x".to_string()]]);
    let exact = batch_texts(vec!["a".to_string(), "b".to_string()], 2);
    assert_eq!(exact.len(), 1);
}
