use bebe_ai::crawl::{filter_chunks, CrawlCoordinator, TEXT_MIN_LENGTH};
use bebe_ai::discover::PageDescriptor;
use bebe_ai::document::mv::{FetchError, MieuxVivreMetadata, PageError, ParseError};
use bebe_ai::document::Chunk;

fn chunk(text: &str) -> Chunk<MieuxVivreMetadata> {
    Chunk {
        text: text.to_string(),
        metadata: MieuxVivreMetadata {
            title: "T".to_string(),
            section: "S".to_string(),
            subsection: "SS".to_string(),
            heading: None,
            url: "u".to_string(),
        },
    }
}

fn page(n: usize) -> PageDescriptor {
    PageDescriptor {
        url: format!("https://example.org/{}", n),
        section: "S".to_string(),
        subsection: "SS".to_string(),
    }
}

#[test]
fn filter_drops_text_at_threshold_and_keeps_one_past_it() {
    assert_eq!(TEXT_MIN_LENGTH, 42);
    let at_threshold = "x".repeat(42);
    let past_threshold = "y".repeat(43);
    let kept = filter_chunks(vec![chunk(&at_threshold), chunk(&past_threshold)]);
    assert_eq!(kept.len(), 1);
    assert_eq!(kept[0].text, past_threshold);
}

#[test]
fn filter_keeps_order() {
    let a = "a".repeat(50);
    let b = "b".repeat(60);
    let kept = filter_chunks(vec![chunk(&a), chunk("tiny"), chunk(&b)]);
    let texts: Vec<&str> = kept.iter().map(|c| c.text.as_str()).collect();
    assert_eq!(texts, vec![a.as_str(), b.as_str()]);
}

#[test]
fn one_failed_page_among_many_is_dropped_not_raised() {
    let long_a = "a".repeat(50);
    let long_b = "b".repeat(50);
    let mut c = CrawlCoordinator::new(vec![page(0), page(1), page(2)], 3);
    let d0 = c.next_fetch().unwrap();
    let d1 = c.next_fetch().unwrap();
    let d2 = c.next_fetch().unwrap();
    assert!([&d0, &d1, &d2].iter().all(|d| d.section == "S"));
    c.complete(Ok(vec![chunk(&long_a)]));
    c.complete(Err(PageError::Fetch(FetchError::Status(500))));
    c.complete(Ok(vec![chunk(&long_b)]));
    assert!(c.done());
    assert_eq!(c.failure_count(), 1);
    let chunks = c.into_chunks();
    let texts: Vec<&str> = chunks.iter().map(|c| c.text.as_str()).collect();
    assert_eq!(texts, vec![long_a.as_str(), long_b.as_str()]);
}

#[test]
fn aggregate_applies_minimum_length_per_page() {
    let long_a = "a".repeat(43);
    let mut c = CrawlCoordinator::new(vec![page(0)], 1);
    c.next_fetch().unwrap();
    c.complete(Ok(vec![chunk("short"), chunk(&long_a), chunk(&"z".repeat(42))]));
    let chunks = c.into_chunks();
    assert_eq!(chunks.len(), 1);
    assert_eq!(chunks[0].text, long_a);
}

#[test]
fn no_more_fetches_in_flight_than_permits() {
    let pages: Vec<PageDescriptor> = (0..10).map(page).collect();
    let mut c = CrawlCoordinator::new(pages, 2);
    let mut max_in_flight = 0;
    let mut completed = 0;
    while !c.done() {
        while let Some(_d) = c.next_fetch() {
            assert!(c.in_flight_count() <= 2);
            if c.in_flight_count() > max_in_flight {
                max_in_flight = c.in_flight_count();
            }
        }
        if c.in_flight_count() > 0 {
            c.complete(Ok(vec![]));
            completed += 1;
        }
    }
    assert_eq!(max_in_flight, 2);
    assert_eq!(completed, 10);
    assert_eq!(c.failure_count(), 0);
}

#[test]
fn every_failure_kind_is_recorded_and_dropped() {
    let mut c = CrawlCoordinator::new(vec![page(0), page(1), page(2)], 3);
    c.next_fetch().unwrap();
    c.next_fetch().unwrap();
    c.next_fetch().unwrap();
    c.complete(Err(PageError::Fetch(FetchError::Network)));
    c.complete(Err(PageError::Parse(ParseError::TitleMissing)));
    c.complete(Err(PageError::Parse(ParseError::ContentMissing)));
    assert!(c.done());
    assert_eq!(c.failure_count(), 3);
    assert!(c.into_chunks().is_empty());
}

#[test]
fn back_pressure_applies_before_the_fetch() {
    let pages: Vec<PageDescriptor> = (0..3).map(page).collect();
    let mut c = CrawlCoordinator::new(pages, 2);
    assert!(c.next_fetch().is_some());
    assert!(c.next_fetch().is_some());
    assert!(c.next_fetch().is_none());
    assert_eq!(c.in_flight_count(), 2);
    c.complete(Ok(vec![]));
    assert_eq!(c.in_flight_count(), 1);
    assert!(c.next_fetch().is_some());
    assert!(c.next_fetch().is_none());
}
