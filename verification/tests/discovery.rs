use bebe_ai::discover::{resolve_url, section_pages, MenuEntry, NavLink};
use bebe_ai::document::mv::{DiscoveryError, MieuxVivreFetcher, ParseError, BASE_URL};

fn link(title: &str, href: &str) -> NavLink {
    NavLink {
        title: title.to_string(),
        href: href.to_string(),
    }
}

#[test]
fn resolve_url_concatenates() {
    assert_eq!(
        resolve_url("https://www.inspq.qc.ca", "/mieux-vivre/page"),
        "https://www.inspq.qc.ca/mieux-vivre/page"
    );
}

#[test]
fn section_pages_orders_entry_then_nested() {
    let entries = vec![
        MenuEntry {
            link: link("Sub A", "/a"),
            nested: vec![link("Deep A1", "/a1"), link("Deep A2", "/a2")],
        },
        MenuEntry {
            link: link("Sub B", "/b"),
            nested: vec![],
        },
    ];
    let pages = section_pages("Sec", "https://base", &entries);
    let got: Vec<(&str, &str, &str)> = pages
        .iter()
        .map(|p| (p.url.as_str(), p.section.as_str(), p.subsection.as_str()))
        .collect();
    assert_eq!(
        got,
        vec![
            ("https://base/a", "Sec", "Sub A"),
            ("https://base/a1", "Sec", "Sub A"),
            ("https://base/a2", "Sec", "Sub A"),
            ("https://base/b", "Sec", "Sub B"),
        ]
    );
}

fn root_html() -> String {
    "<html><body>\
     <div class=\"carte-lien-mv\"><a href=\"/mieux-vivre/sec-one\"><span></span><div>Section One</div></a></div>\
     <div class=\"carte-lien-mv\"><a href=\"/mieux-vivre/sec-two\"><span></span><div>Section Two</div></a></div>\
     </body></html>"
        .to_string()
}

fn section_html(sub: &str, own: &str, nested: &str) -> String {
    format!(
        "<html><body><div id=\"block-mieuxvivre-post-content-menu\"><ul class=\"menu\">\
         <li><a href=\"{}\">{}</a><ul><li><a href=\"{}\">Nested</a></li></ul></li>\
         </ul></div></body></html>",
        own, sub, nested
    )
}

#[test]
fn two_sections_with_nested_links_give_four_pages() {
    let cards = MieuxVivreFetcher::section_cards_from_html(&root_html()).unwrap();
    assert_eq!(cards.len(), 2);
    assert_eq!(cards[0].title, "Section One");
    assert_eq!(cards[0].href, "/mieux-vivre/sec-one");
    assert_eq!(cards[1].title, "Section Two");

    let mut all = Vec::new();
    let htmls = vec![
        section_html("Sub One", "/p1", "/p1a"),
        section_html("Sub Two", "/p2", "/p2a"),
    ];
    for (card, html) in cards.iter().zip(htmls.iter()) {
        let pages = MieuxVivreFetcher::section_pages_from_html(html, &card.title).unwrap();
        all.extend(pages);
    }
    assert_eq!(all.len(), 4);
    let got: Vec<(&str, &str, &str)> = all
        .iter()
        .map(|p| (p.url.as_str(), p.section.as_str(), p.subsection.as_str()))
        .collect();
    assert_eq!(
        got,
        vec![
            (
                &*format!("{}/p1", BASE_URL),
                "Section One",
                "Sub One"
            ),
            (&*format!("{}/p1a", BASE_URL), "Section One", "Sub One"),
            (&*format!("{}/p2", BASE_URL), "Section Two", "Sub Two"),
            (&*format!("{}/p2a", BASE_URL), "Section Two", "Sub Two"),
        ]
        .iter()
        .map(|(u, s, ss)| (*u, *s, *ss))
        .collect::<Vec<_>>()
    );
}

#[test]
fn card_without_link_is_fatal() {
    let html = "<html><body><div class=\"carte-lien-mv\"><div>No anchor</div></div></body></html>";
    let err = MieuxVivreFetcher::section_cards_from_html(html).unwrap_err();
    assert_eq!(err, DiscoveryError::SectionLinkMissing);
}

#[test]
fn missing_menu_is_fatal() {
    let html = "<html><body><p>No menu here</p></body></html>";
    let err = MieuxVivreFetcher::section_pages_from_html(html, "Sec").unwrap_err();
    assert_eq!(err, DiscoveryError::MenuMissing);
}

#[test]
fn menu_entry_without_anchor_is_fatal() {
    let html = "<html><body><div id=\"block-mieuxvivre-post-content-menu\">\
                <ul class=\"menu\"><li><span>No anchor</span></li></ul></div></body></html>";
    let err = MieuxVivreFetcher::section_pages_from_html(html, "Sec").unwrap_err();
    assert_eq!(err, DiscoveryError::MenuEntryAnchorMissing);
}

fn page_html() -> String {
    "<html><body><h1>Page Title</h1>\
     <div class=\"two-column-layout__left\"><div class=\"field__item\">\
     <h2>Care</h2>\
     <p>First paragraph about care.</p>\
     <ul><li>point one</li><li>point two</li></ul>\
     <div>A callout box.</div>\
     <p>After the callout.</p>\
     </div></div></body></html>"
        .to_string()
}

#[test]
fn page_is_segmented_in_document_order_with_metadata() {
    let chunks = MieuxVivreFetcher::page_chunks_from_html(
        &page_html(),
        "Sec",
        "Sub",
        "https://www.inspq.qc.ca/p",
    )
    .unwrap();
    assert_eq!(chunks.len(), 3);
    assert_eq!(chunks[0].text, "First paragraph about care.\npoint onepoint two");
    assert_eq!(chunks[0].metadata.heading, Some("Care".to_string()));
    assert_eq!(chunks[0].metadata.title, "Page Title");
    assert_eq!(chunks[1].text, "A callout box.");
    assert_eq!(chunks[1].metadata.heading, None);
    assert_eq!(chunks[2].text, "After the callout.");
    assert_eq!(chunks[2].metadata.heading, None);
    for c in &chunks {
        assert_eq!(c.metadata.section, "Sec");
        assert_eq!(c.metadata.subsection, "Sub");
        assert_eq!(c.metadata.url, "https://www.inspq.qc.ca/p");
    }
}

#[test]
fn page_without_title_fails_to_parse() {
    let html = "<html><body><div class=\"two-column-layout__left\">\
                <div class=\"field__item\"><p>text</p></div></div></body></html>";
    let err = MieuxVivreFetcher::page_chunks_from_html(html, "S", "SS", "u").unwrap_err();
    assert_eq!(err, ParseError::TitleMissing);
}

#[test]
fn page_without_content_container_fails_to_parse() {
    let html = "<html><body><h1>Title</h1><p>no container</p></body></html>";
    let err = MieuxVivreFetcher::page_chunks_from_html(html, "S", "SS", "u").unwrap_err();
    assert_eq!(err, ParseError::ContentMissing);
}
