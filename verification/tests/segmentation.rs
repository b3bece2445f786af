use bebe_ai::document::{Chunk, CrawlError, DocumentFetcher};
use bebe_ai::segment::{kind_of_name, segment, ContentNode, NodeKind, PageMeta};

fn meta() -> PageMeta {
    PageMeta {
        title: "Title".to_string(),
        section: "Section".to_string(),
        subsection: "Subsection".to_string(),
        url: "https://example.org/page".to_string(),
    }
}

fn node(name: &str, text: &str) -> ContentNode {
    ContentNode {
        name: name.to_string(),
        text: text.to_string(),
    }
}

struct SimpleFetcher;

impl DocumentFetcher<()> for SimpleFetcher {
    fn fetch(&self) -> Result<Vec<Chunk<()>>, CrawlError> {
        Ok(vec![Chunk {
            text: "Hello, world!".to_string(),
            metadata: (),
        }])
    }
}

#[test]
fn test_basic_fetch() {
    let fetcher = SimpleFetcher;
    let documents = fetcher.fetch().unwrap();
    assert_eq!(documents.len(), 1);
    assert_eq!(documents[0].text, "Hello, world!");
}

#[test]
fn classify_all_kinds() {
    assert_eq!(kind_of_name(&"h2".to_string()), NodeKind::Heading);
    assert_eq!(kind_of_name(&"h3".to_string()), NodeKind::Heading);
    assert_eq!(kind_of_name(&"h4".to_string()), NodeKind::Heading);
    assert_eq!(kind_of_name(&"p".to_string()), NodeKind::Paragraph);
    assert_eq!(kind_of_name(&"div".to_string()), NodeKind::Block);
    assert_eq!(kind_of_name(&"article".to_string()), NodeKind::Block);
    assert_eq!(kind_of_name(&"ul".to_string()), NodeKind::List);
    assert_eq!(kind_of_name(&"ol".to_string()), NodeKind::List);
    assert_eq!(kind_of_name(&"h1".to_string()), NodeKind::Other);
    assert_eq!(kind_of_name(&"span".to_string()), NodeKind::Other);
}

#[test]
fn chunks_preserve_document_order() {
    let nodes = vec![
        node("p", "first"),
        node("div", "second"),
        node("p", "third"),
        node("article", "fourth"),
    ];
    let chunks = segment(&nodes, &meta());
    let texts: Vec<&str> = chunks.iter().map(|c| c.text.as_str()).collect();
    assert_eq!(texts, vec!["first", "second", "third", "fourth"]);
}

#[test]
fn list_folds_into_preceding_paragraph() {
    let nodes = vec![node("p", "lead-in"), node("ul", "item one item two")];
    let chunks = segment(&nodes, &meta());
    assert_eq!(chunks.len(), 1);
    assert_eq!(chunks[0].text, "lead-in\nitem one item two");
}

#[test]
fn ordered_list_folds_too() {
    let nodes = vec![node("p", "steps"), node("ol", "one two")];
    let chunks = segment(&nodes, &meta());
    assert_eq!(chunks.len(), 1);
    assert_eq!(chunks[0].text, "steps\none two");
}

#[test]
fn list_without_preceding_chunk_stands_alone() {
    let nodes = vec![node("ul", "only items")];
    let chunks = segment(&nodes, &meta());
    assert_eq!(chunks.len(), 1);
    assert_eq!(chunks[0].text, "only items");
    assert_eq!(chunks[0].metadata.heading, None);
}

#[test]
fn list_after_heading_only_stands_alone_under_heading() {
    let nodes = vec![node("h2", "Topic"), node("ul", "a b c")];
    let chunks = segment(&nodes, &meta());
    assert_eq!(chunks.len(), 1);
    assert_eq!(chunks[0].text, "a b c");
    assert_eq!(chunks[0].metadata.heading, Some("Topic".to_string()));
}

#[test]
fn heading_scopes_until_next_heading() {
    let nodes = vec![
        node("p", "before any heading"),
        node("h2", "First"),
        node("p", "under first"),
        node("p", "still under first"),
        node("h3", "Second"),
        node("p", "under second"),
    ];
    let chunks = segment(&nodes, &meta());
    assert_eq!(chunks.len(), 4);
    assert_eq!(chunks[0].metadata.heading, None);
    assert_eq!(chunks[1].metadata.heading, Some("First".to_string()));
    assert_eq!(chunks[2].metadata.heading, Some("First".to_string()));
    assert_eq!(chunks[3].metadata.heading, Some("Second".to_string()));
}

#[test]
fn block_resets_heading_for_following_chunks() {
    let nodes = vec![
        node("h2", "Topic"),
        node("p", "under topic"),
        node("div", "callout"),
        node("p", "after callout"),
        node("h2", "Next"),
        node("p", "under next"),
    ];
    let chunks = segment(&nodes, &meta());
    assert_eq!(chunks.len(), 4);
    assert_eq!(chunks[0].metadata.heading, Some("Topic".to_string()));
    assert_eq!(chunks[1].metadata.heading, None);
    assert_eq!(chunks[2].metadata.heading, None);
    assert_eq!(chunks[3].metadata.heading, Some("Next".to_string()));
}

#[test]
fn unknown_nodes_are_skipped() {
    let nodes = vec![
        node("span", "ignored"),
        node("p", "kept"),
        node("script", "ignored too"),
    ];
    let chunks = segment(&nodes, &meta());
    assert_eq!(chunks.len(), 1);
    assert_eq!(chunks[0].text, "kept");
}

#[test]
fn every_chunk_carries_the_page_context() {
    let nodes = vec![node("p", "a"), node("div", "b"), node("ul", "c")];
    let chunks = segment(&nodes, &meta());
    for c in &chunks {
        assert_eq!(c.metadata.title, "Title");
        assert_eq!(c.metadata.section, "Section");
        assert_eq!(c.metadata.subsection, "Subsection");
        assert_eq!(c.metadata.url, "https://example.org/page");
    }
}
