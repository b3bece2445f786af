//! Crawling and segmentation of the Mieux Vivre public health guide site.

use vstd::prelude::*;
use vstd::string::StringExecFns;

use crate::document::Chunk;
use crate::discover;
use crate::discover::{NavLink, PageDescriptor};
use crate::dom;
use crate::segment;
use crate::segment::{chunk_views, node_views, ContentNode, PageMeta};

verus! {

/// The root listing page, where discovery starts.
pub const ROOT: &'static str = "https://www.inspq.qc.ca/mieux-vivre/consultez-le-guide";

/// The base every relative href of the site is resolved against.
pub const BASE_URL: &'static str = "https://www.inspq.qc.ca";

/// Selects the section cards on the root listing page.
pub const CARD_SELECTOR: &'static str = ".carte-lien-mv";

/// Selects a section page's navigation menu container.
pub const MENU_SELECTOR: &'static str = "#block-mieuxvivre-post-content-menu .menu";

/// Selects a content page's title element.
pub const TITLE_SELECTOR: &'static str = "h1";

/// Selects a content page's main content container.
pub const CONTENT_SELECTOR: &'static str = ".two-column-layout__left .field__item";

/// A read element seen as a content node: its tag name and flattened text.
pub open spec fn content_node_views(elems: Seq<crate::dom::RawElemView>) -> Seq<
    crate::segment::ContentNodeView,
> {
    elems.map_values(
        |e: crate::dom::RawElemView| crate::segment::ContentNodeView { name: e.name, text: e.text },
    )
}

/// The structural metadata attached to every chunk cut out of a guide page.
#[derive(Debug)]
pub struct MieuxVivreMetadata {
    pub title: String,
    pub section: String,
    pub subsection: String,
    pub heading: Option<String>,
    pub url: String,
}

/// The model of a chunk's metadata.
pub struct MieuxVivreMetadataView {
    pub title: Seq<char>,
    pub section: Seq<char>,
    pub subsection: Seq<char>,
    pub heading: Option<Seq<char>>,
    pub url: Seq<char>,
}

impl View for MieuxVivreMetadata {
    type V = MieuxVivreMetadataView;

    open spec fn view(&self) -> MieuxVivreMetadataView {
        MieuxVivreMetadataView {
            title: self.title@,
            section: self.section@,
            subsection: self.subsection@,
            heading: match self.heading {
                Some(s) => Some(s@),
                None => None,
            },
            url: self.url@,
        }
    }
}

/// A fatal defect found while mapping the site's navigation: the expected
/// structure is absent, so the page list cannot be built.
#[derive(Debug, Clone, Copy, PartialEq, Eq, Structural)]
pub enum DiscoveryError {
    /// A section card on the root listing page holds no usable link.
    SectionLinkMissing,
    /// A section page has no navigation menu container.
    MenuMissing,
    /// A navigation menu entry holds no anchor.
    MenuEntryAnchorMissing,
}

/// A per-page failure while fetching one content page; the page is dropped
/// and the crawl goes on.
#[derive(Debug, Clone, Copy, PartialEq, Eq, Structural)]
pub enum FetchError {
    /// The request could not be completed at all.
    Network,
    /// The server answered with a non-success HTTP status.
    Status(u16),
}

/// A per-page failure while reading a fetched page: an expected element is
/// absent; the page is dropped and the crawl goes on.
#[derive(Debug, Clone, Copy, PartialEq, Eq, Structural)]
pub enum ParseError {
    /// The page has no title element.
    TitleMissing,
    /// The page has no main content container.
    ContentMissing,
}

/// Whatever made one page's crawl fail; recoverable, scoped to that page.
#[derive(Debug, Clone, Copy, PartialEq, Eq, Structural)]
pub enum PageError {
    Fetch(FetchError),
    Parse(ParseError),
}

/// The crawler for the Mieux Vivre guide.
pub struct MieuxVivreFetcher {}

impl MieuxVivreFetcher {
    pub fn new() -> Self {
        Self {}
    }

    /// Reads the root listing page and lists the section links it offers:
    /// one per section card, each the card's first child element's flattened
    /// text and href. Fails with `SectionLinkMissing` exactly when a card is
    /// empty or its first element has no href; a page without cards yields
    /// an empty list.
    pub fn section_cards_from_html(html: &str) -> (r: Result<Vec<NavLink>, DiscoveryError>)
        ensures
            (match r {
                Ok(links) => Ok(discover::link_views(links@)),
                Err(e) => Err::<Seq<discover::NavLinkView>, DiscoveryError>(e),
            }) == discover::spec_section_cards(html@, CARD_SELECTOR@),
    {
        discover::section_cards_of(html, CARD_SELECTOR)
    }

    /// Reads one section page and lists the content pages its navigation
    /// menu names: one per menu entry and one per nested item, in document
    /// order, every page labelled with this section and its entry's
    /// subsection, and every URL resolved against the site's base URL.
    /// Fails with `MenuMissing` exactly when the menu container is absent,
    /// and with `MenuEntryAnchorMissing` exactly when an entry's anchor is
    /// missing or bare, as `spec_menu_entries` reads the page.
    pub fn section_pages_from_html(html: &str, section: &str) -> (r: Result<
        Vec<PageDescriptor>,
        DiscoveryError,
    >)
        ensures
            ({
                let m = discover::spec_menu_entries(html@, MENU_SELECTOR@);
                match r {
                    Ok(pages) => m matches Ok(evs) && discover::desc_views(pages@)
                        == discover::menu_descriptors(section@, BASE_URL@, evs),
                    Err(e) => m == Err::<Seq<discover::MenuEntryView>, DiscoveryError>(e),
                }
            }),
            (r matches Ok(pages) ==> forall|k: int|
                0 <= k < pages@.len() ==> (#[trigger] pages@[k]@).section == section@
                    && BASE_URL@.is_prefix_of(pages@[k]@.url)),
    {
        let entries = match discover::menu_entries_of(html, MENU_SELECTOR) {
            Ok(e) => e,
            Err(e) => {
                return Err(e);
            },
        };
        let pages = discover::section_pages(section, BASE_URL, &entries);
        proof {
            assert forall|k: int|
                0 <= k < pages@.len() implies (#[trigger] pages@[k]@).section == section@
                && BASE_URL@.is_prefix_of(pages@[k]@.url) by {
                discover::lemma_menu_descriptor_fields(
                    section@,
                    BASE_URL@,
                    discover::entry_views(entries@),
                    k,
                );
                assert(discover::desc_views(pages@)[k] == pages@[k]@);
            }
        }
        Ok(pages)
    }

    /// Reads one content page and cuts it into chunks: the title element's
    /// flattened text becomes the page title, and the content container's
    /// direct children are segmented in document order. Fails with
    /// `TitleMissing` exactly when no title element matches, and with
    /// `ContentMissing` exactly when the title is there but no content
    /// container matches. Every chunk returned carries this page's section,
    /// subsection and URL.
    pub fn page_chunks_from_html(
        html: &str,
        section: &str,
        subsection: &str,
        url: &str,
    ) -> (r: Result<Vec<Chunk<MieuxVivreMetadata>>, ParseError>)
        ensures
            ({
                let title = crate::dom::first_match_text(html@, TITLE_SELECTOR@);
                let content = crate::dom::elems_at(
                    html@,
                    CONTENT_SELECTOR@,
                    Seq::<usize>::empty(),
                );
                match r {
                    Ok(chunks) => title matches Some(t) && content matches Some(es)
                        && chunk_views(chunks@) == segment::spec_segment(
                        content_node_views(es),
                        (segment::PageMetaView {
                            title: t,
                            section: section@,
                            subsection: subsection@,
                            url: url@,
                        }),
                    ),
                    Err(e) => (e == ParseError::TitleMissing && title is None) || (
                    e == ParseError::ContentMissing && title is Some && content is None),
                }
            }),
            (r matches Ok(chunks) ==> forall|k: int|
                0 <= k < chunks@.len() ==> {
                    let m = (#[trigger] chunks@[k]@).metadata;
                    &&& m.section == section@
                    &&& m.subsection == subsection@
                    &&& m.url == url@
                }),
    {
        let title = match dom::read_first_text(html, TITLE_SELECTOR) {
            Some(t) => t,
            None => {
                return Err(ParseError::TitleMissing);
            },
        };
        let empty_path: Vec<usize> = Vec::new();
        proof {
            assert(empty_path@ =~= Seq::<usize>::empty());
        }
        let elems = match dom::read_elems_at(html, CONTENT_SELECTOR, &empty_path) {
            Some(e) => e,
            None => {
                return Err(ParseError::ContentMissing);
            },
        };
        let ghost ev = crate::dom::elem_views(elems@);
        let mut nodes: Vec<ContentNode> = Vec::new();
        let mut i: usize = 0;
        proof {
            assert(node_views(nodes@) =~= content_node_views(ev.take(0)));
        }
        while i < elems.len()
            invariant
                i <= elems@.len(),
                ev == crate::dom::elem_views(elems@),
                ev.len() == elems@.len(),
                node_views(nodes@) == content_node_views(ev.take(i as int)),
            decreases elems.len() - i,
        {
            let node = ContentNode {
                name: elems[i].name.clone(),
                text: elems[i].text.clone(),
            };
            proof {
                assert(ev[i as int] == elems@[i as int]@);
                assert(node@ == (segment::ContentNodeView {
                    name: ev[i as int].name,
                    text: ev[i as int].text,
                }));
                nodes@.lemma_push_map_commute(|x: ContentNode| x@, node);
                assert(ev.take(i as int + 1) =~= ev.take(i as int).push(ev[i as int]));
            }
            nodes.push(node);
            proof {
                assert(node_views(nodes@) =~= content_node_views(ev.take(i as int + 1)));
            }
            i += 1;
        }
        proof {
            assert(ev.take(elems@.len() as int) =~= ev);
        }
        let meta = PageMeta {
            title: title,
            section: String::from_str(section),
            subsection: String::from_str(subsection),
            url: String::from_str(url),
        };
        let chunks = segment::segment(&nodes, &meta);
        proof {
            assert forall|k: int|
                0 <= k < chunks@.len() implies {
                let m = (#[trigger] chunks@[k]@).metadata;
                &&& m.section == section@
                &&& m.subsection == subsection@
                &&& m.url == url@
            } by {
                segment::lemma_chunk_page_context(node_views(nodes@), meta@, k);
                assert(chunk_views(chunks@)[k] == chunks@[k]@);
            }
        }
        Ok(chunks)
    }
}

} // verus!
