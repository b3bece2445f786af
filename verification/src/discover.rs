//! Mapping the site's navigation into a flat list of pages to crawl.
//!
//! The root listing page yields one link per section card. Each section page
//! holds a navigation menu whose direct entries each name one content page;
//! an entry may carry a nested list whose items name further content pages
//! under the same section and subsection labels.

use vstd::prelude::*;
use vstd::string::StringExecFns;

use crate::dom;
use crate::document::mv::DiscoveryError;
use crate::segment::str_eq;

verus! {

/// One discovered page: its resolved URL and its section and subsection
/// labels.
#[derive(Debug, Clone)]
pub struct PageDescriptor {
    pub url: String,
    pub section: String,
    pub subsection: String,
}

/// The model of a page descriptor.
pub struct PageDescriptorView {
    pub url: Seq<char>,
    pub section: Seq<char>,
    pub subsection: Seq<char>,
}

impl View for PageDescriptor {
    type V = PageDescriptorView;

    open spec fn view(&self) -> PageDescriptorView {
        PageDescriptorView {
            url: self.url@,
            section: self.section@,
            subsection: self.subsection@,
        }
    }
}

/// One link found in the navigation: its visible title and its href.
#[derive(Debug, Clone)]
pub struct NavLink {
    pub title: String,
    pub href: String,
}

/// The model of a navigation link.
pub struct NavLinkView {
    pub title: Seq<char>,
    pub href: Seq<char>,
}

impl View for NavLink {
    type V = NavLinkView;

    open spec fn view(&self) -> NavLinkView {
        NavLinkView { title: self.title@, href: self.href@ }
    }
}

/// One direct entry of a section page's navigation menu: its own link and
/// the links of its nested list, if any.
#[derive(Debug, Clone)]
pub struct MenuEntry {
    pub link: NavLink,
    pub nested: Vec<NavLink>,
}

/// The model of a menu entry.
pub struct MenuEntryView {
    pub link: NavLinkView,
    pub nested: Seq<NavLinkView>,
}

impl View for MenuEntry {
    type V = MenuEntryView;

    open spec fn view(&self) -> MenuEntryView {
        MenuEntryView {
            link: self.link@,
            nested: self.nested@.map_values(|n: NavLink| n@),
        }
    }
}

/// The models of a sequence of page descriptors.
pub open spec fn desc_views(pages: Seq<PageDescriptor>) -> Seq<PageDescriptorView> {
    pages.map_values(|p: PageDescriptor| p@)
}

/// The models of a sequence of menu entries.
pub open spec fn entry_views(entries: Seq<MenuEntry>) -> Seq<MenuEntryView> {
    entries.map_values(|e: MenuEntry| e@)
}

/// A relative href resolved against the site's base URL.
pub fn resolve_url(base: &str, href: &str) -> (r: String)
    ensures
        r@ == base@ + href@,
{
    let mut s = String::from_str(base);
    s.append(href);
    s
}

/// The descriptors one menu entry contributes: first its own page, then one
/// page per nested link, all under this entry's subsection title.
pub open spec fn entry_descriptors(
    section: Seq<char>,
    base: Seq<char>,
    e: MenuEntryView,
) -> Seq<PageDescriptorView> {
    seq![
        PageDescriptorView { url: base + e.link.href, section: section, subsection: e.link.title },
    ] + e.nested.map_values(
        |n: NavLinkView| PageDescriptorView {
            url: base + n.href,
            section: section,
            subsection: e.link.title,
        },
    )
}

/// The descriptors a whole menu contributes, in discovery order.
pub open spec fn menu_descriptors(
    section: Seq<char>,
    base: Seq<char>,
    entries: Seq<MenuEntryView>,
) -> Seq<PageDescriptorView>
    decreases entries.len(),
{
    if entries.len() == 0 {
        Seq::empty()
    } else {
        menu_descriptors(section, base, entries.drop_last()) + entry_descriptors(
            section,
            base,
            entries.last(),
        )
    }
}

/// One more menu entry contributes its own descriptors at the end.
proof fn lemma_menu_descriptors_take_step(
    section: Seq<char>,
    base: Seq<char>,
    entries: Seq<MenuEntryView>,
    i: int,
)
    requires
        0 <= i < entries.len(),
    ensures
        menu_descriptors(section, base, entries.take(i + 1)) == menu_descriptors(
            section,
            base,
            entries.take(i),
        ) + entry_descriptors(section, base, entries[i]),
{
    assert(entries.take(i + 1).drop_last() =~= entries.take(i));
    assert(entries.take(i + 1).last() == entries[i]);
}

/// Every page a menu contributes carries the section label it was walked
/// under, and a URL resolved against the base.
pub proof fn lemma_menu_descriptor_fields(
    section: Seq<char>,
    base: Seq<char>,
    entries: Seq<MenuEntryView>,
    k: int,
)
    requires
        0 <= k < menu_descriptors(section, base, entries).len(),
    ensures
        menu_descriptors(section, base, entries)[k].section == section,
        base.is_prefix_of(menu_descriptors(section, base, entries)[k].url),
    decreases entries.len(),
{
    if entries.len() > 0 {
        let prev = menu_descriptors(section, base, entries.drop_last());
        if k < prev.len() {
            lemma_menu_descriptor_fields(section, base, entries.drop_last(), k);
        } else {
            let e = entries.last();
            let d = entry_descriptors(section, base, e)[k - prev.len()];
            assert(menu_descriptors(section, base, entries)[k] == d);
            assert(base.is_prefix_of(d.url)) by {
                assert(d.url.subrange(0, base.len() as int) =~= base);
            }
        }
    }
}

/// Turns a section's menu entries into page descriptors: one per entry, then
/// one per nested link of that entry, in discovery order, every URL resolved
/// against the base URL.
pub fn section_pages(section: &str, base: &str, entries: &Vec<MenuEntry>) -> (pages: Vec<
    PageDescriptor,
>)
    ensures
        desc_views(pages@) == menu_descriptors(section@, base@, entry_views(entries@)),
{
    let ghost ev = entry_views(entries@);
    let mut pages: Vec<PageDescriptor> = Vec::new();
    let mut i: usize = 0;
    proof {
        assert(ev.take(0) =~= Seq::<MenuEntryView>::empty());
        assert(desc_views(pages@) =~= menu_descriptors(section@, base@, ev.take(0)));
    }
    while i < entries.len()
        invariant
            i <= entries.len(),
            ev == entry_views(entries@),
            ev.len() == entries@.len(),
            desc_views(pages@) == menu_descriptors(section@, base@, ev.take(i as int)),
        decreases entries.len() - i,
    {
        let entry = &entries[i];
        proof {
            lemma_menu_descriptors_take_step(section@, base@, ev, i as int);
            assert(ev[i as int] == entries@[i as int]@);
        }
        let ghost before = menu_descriptors(section@, base@, ev.take(i as int));
        let own = PageDescriptor {
            url: resolve_url(base, entry.link.href.as_str()),
            section: String::from_str(section),
            subsection: entry.link.title.clone(),
        };
        pages.push(own);
        let ghost nested_descs = ev[i as int].nested.map_values(
            |n: NavLinkView| PageDescriptorView {
                url: base@ + n.href,
                section: section@,
                subsection: ev[i as int].link.title,
            },
        );
        proof {
            assert(desc_views(pages@) =~= before + seq![
                PageDescriptorView {
                    url: base@ + ev[i as int].link.href,
                    section: section@,
                    subsection: ev[i as int].link.title,
                },
            ]);
        }
        let mut j: usize = 0;
        while j < entry.nested.len()
            invariant
                j <= entry.nested.len(),
                ev == entry_views(entries@),
                ev.len() == entries@.len(),
                i < entries@.len(),
                entry == &entries@[i as int],
                ev[i as int] == entries@[i as int]@,
                nested_descs == ev[i as int].nested.map_values(
                    |n: NavLinkView| PageDescriptorView {
                        url: base@ + n.href,
                        section: section@,
                        subsection: ev[i as int].link.title,
                    },
                ),
                nested_descs.len() == entry.nested@.len(),
                desc_views(pages@) == before + seq![
                    PageDescriptorView {
                        url: base@ + ev[i as int].link.href,
                        section: section@,
                        subsection: ev[i as int].link.title,
                    },
                ] + nested_descs.take(j as int),
            decreases entry.nested.len() - j,
        {
            let n = &entry.nested[j];
            let d = PageDescriptor {
                url: resolve_url(base, n.href.as_str()),
                section: String::from_str(section),
                subsection: entry.link.title.clone(),
            };
            proof {
                assert(ev[i as int].nested[j as int] == entry.nested@[j as int]@);
                assert(d@ == nested_descs[j as int]);
                pages@.lemma_push_map_commute(|p: PageDescriptor| p@, d);
            }
            let ghost pp = pages@;
            pages.push(d);
            proof {
                assert(desc_views(pages@) == desc_views(pp).push(nested_descs[j as int]));
                assert(nested_descs.take(j as int + 1) =~= nested_descs.take(j as int).push(
                    nested_descs[j as int],
                ));
                assert(desc_views(pages@) =~= before + seq![
                    PageDescriptorView {
                        url: base@ + ev[i as int].link.href,
                        section: section@,
                        subsection: ev[i as int].link.title,
                    },
                ] + nested_descs.take(j as int + 1));
            }
            j += 1;
        }
        proof {
            assert(nested_descs.take(entry.nested@.len() as int) =~= nested_descs);
            assert(desc_views(pages@) =~= menu_descriptors(section@, base@, ev.take(i as int + 1)));
        }
        i += 1;
    }
    proof {
        assert(ev.take(entries@.len() as int) =~= ev);
    }
    pages
}

/// The views of a sequence of navigation links.
pub open spec fn link_views(links: Seq<NavLink>) -> Seq<NavLinkView> {
    links.map_values(|l: NavLink| l@)
}

/// What a read that found nothing leaves to walk: no elements.
pub open spec fn elems_or_empty(
    html: Seq<char>,
    selector: Seq<char>,
    path: Seq<usize>,
) -> Seq<dom::RawElemView> {
    match dom::elems_at(html, selector, path) {
        Some(es) => es,
        None => Seq::empty(),
    }
}

/// The index of the first element with the given tag name, if any.
pub open spec fn find_named(elems: Seq<dom::RawElemView>, name: Seq<char>) -> Option<int>
    decreases elems.len(),
{
    if elems.len() == 0 {
        None
    } else if elems.first().name == name {
        Some(0)
    } else {
        match find_named(elems.drop_first(), name) {
            Some(i) => Some(i + 1),
            None => None,
        }
    }
}

/// `find_named` returns the first index whose element bears the name.
proof fn lemma_find_named_some(elems: Seq<dom::RawElemView>, name: Seq<char>, i: int)
    requires
        0 <= i < elems.len(),
        elems[i].name == name,
        forall|k: int| 0 <= k < i ==> (#[trigger] elems[k]).name != name,
    ensures
        find_named(elems, name) == Some(i),
    decreases elems.len(),
{
    if elems.first().name == name {
        assert(i == 0);
    } else {
        assert(elems.drop_first()[i - 1] == elems[i]);
        assert forall|k: int| 0 <= k < i - 1 implies (#[trigger] elems.drop_first()[k]).name
            != name by {
            assert(elems.drop_first()[k] == elems[k + 1]);
        }
        lemma_find_named_some(elems.drop_first(), name, i - 1);
    }
}

/// When no element bears the name, `find_named` finds nothing.
proof fn lemma_find_named_none(elems: Seq<dom::RawElemView>, name: Seq<char>)
    requires
        forall|k: int| 0 <= k < elems.len() ==> (#[trigger] elems[k]).name != name,
    ensures
        find_named(elems, name) is None,
    decreases elems.len(),
{
    if elems.len() > 0 {
        assert forall|k: int|
            0 <= k < elems.drop_first().len() implies (#[trigger] elems.drop_first()[k]).name
            != name by {
            assert(elems.drop_first()[k] == elems[k + 1]);
        }
        lemma_find_named_none(elems.drop_first(), name);
    }
}

/// Finds the first element with the given tag name.
fn find_elem_named(elems: &Vec<dom::RawElem>, name: &str) -> (r: Option<usize>)
    ensures
        (match r {
            Some(i) => Some(i as int),
            None => None::<int>,
        }) == find_named(dom::elem_views(elems@), name@),
        r matches Some(i) ==> i < elems@.len(),
{
    let mut i: usize = 0;
    while i < elems.len()
        invariant
            i <= elems@.len(),
            forall|k: int|
                0 <= k < i ==> (#[trigger] dom::elem_views(elems@)[k]).name != name@,
        decreases elems.len() - i,
    {
        if str_eq(elems[i].name.as_str(), name) {
            proof {
                assert(dom::elem_views(elems@)[i as int] == elems@[i as int]@);
                lemma_find_named_some(dom::elem_views(elems@), name@, i as int);
            }
            return Some(i);
        }
        proof {
            assert(dom::elem_views(elems@)[i as int] == elems@[i as int]@);
        }
        i += 1;
    }
    proof {
        lemma_find_named_none(dom::elem_views(elems@), name@);
    }
    None
}

/// The link a section card offers: its first child element's flattened text
/// and href; none when the card is empty or that element has no href.
pub open spec fn spec_card_link(card: Seq<dom::RawElemView>) -> Option<NavLinkView> {
    if card.len() == 0 {
        None
    } else {
        match card[0].href {
            Some(h) => Some(NavLinkView { title: card[0].text, href: h }),
            None => None,
        }
    }
}

/// The links of the first `n` section cards, in order; the first card
/// without a usable link is a fatal defect.
pub open spec fn spec_cards_upto(cards: Seq<Seq<dom::RawElemView>>, n: int) -> Result<
    Seq<NavLinkView>,
    DiscoveryError,
>
    decreases n,
{
    if n <= 0 {
        Ok(Seq::empty())
    } else {
        match spec_cards_upto(cards, n - 1) {
            Err(e) => Err(e),
            Ok(prev) => match spec_card_link(cards[n - 1]) {
                None => Err(DiscoveryError::SectionLinkMissing),
                Some(l) => Ok(prev.push(l)),
            },
        }
    }
}

/// What the root listing page's cards, read under the given selector, yield.
pub open spec fn spec_section_cards(html: Seq<char>, selector: Seq<char>) -> Result<
    Seq<NavLinkView>,
    DiscoveryError,
> {
    spec_cards_upto(
        dom::all_match_elems(html, selector),
        dom::all_match_elems(html, selector).len() as int,
    )
}

/// A defect among the first `m` cards decides the whole read.
proof fn lemma_cards_upto_error(cards: Seq<Seq<dom::RawElemView>>, m: int, n: int)
    requires
        0 <= m <= n,
        spec_cards_upto(cards, m) is Err,
    ensures
        spec_cards_upto(cards, n) == spec_cards_upto(cards, m),
    decreases n,
{
    if n > m {
        lemma_cards_upto_error(cards, m, n - 1);
    }
}

/// Reads the section cards of a listing page into links: one per card, each
/// the card's first child element's flattened text and href, failing on the
/// first card without a usable link.
pub(crate) fn section_cards_of(html: &str, selector: &str) -> (r: Result<
    Vec<NavLink>,
    DiscoveryError,
>)
    ensures
        (match r {
            Ok(links) => Ok(link_views(links@)),
            Err(e) => Err::<Seq<NavLinkView>, DiscoveryError>(e),
        }) == spec_section_cards(html@, selector@),
{
    let cards = dom::read_all_match_elems(html, selector);
    let ghost cv = dom::all_match_elems(html@, selector@);
    let mut links: Vec<NavLink> = Vec::new();
    let mut i: usize = 0;
    proof {
        assert(cv.len() == cards@.len());
        assert(link_views(links@) =~= Seq::<NavLinkView>::empty());
    }
    while i < cards.len()
        invariant
            i <= cards.len(),
            cv == dom::all_match_elems(html@, selector@),
            cv == cards@.map_values(|v: Vec<dom::RawElem>| dom::elem_views(v@)),
            cv.len() == cards@.len(),
            spec_cards_upto(cv, i as int) == Ok::<Seq<NavLinkView>, DiscoveryError>(
                link_views(links@),
            ),
        decreases cards.len() - i,
    {
        let card = &cards[i];
        proof {
            assert(cv[i as int] == dom::elem_views(card@));
        }
        if card.len() == 0 {
            proof {
                assert(spec_card_link(cv[i as int]) is None);
                lemma_cards_upto_error(cv, i as int + 1, cv.len() as int);
            }
            return Err(DiscoveryError::SectionLinkMissing);
        }
        let first = &card[0];
        proof {
            assert(cv[i as int][0] == card@[0]@);
        }
        match &first.href {
            None => {
                proof {
                    assert(spec_card_link(cv[i as int]) is None);
                    lemma_cards_upto_error(cv, i as int + 1, cv.len() as int);
                }
                return Err(DiscoveryError::SectionLinkMissing);
            },
            Some(h) => {
                let l = NavLink { title: first.text.clone(), href: h.clone() };
                proof {
                    assert(l@ == spec_card_link(cv[i as int]).unwrap());
                    links@.lemma_push_map_commute(|x: NavLink| x@, l);
                }
                links.push(l);
                proof {
                    assert(spec_cards_upto(cv, i as int + 1) == Ok::<
                        Seq<NavLinkView>,
                        DiscoveryError,
                    >(link_views(links@)));
                }
            },
        }
        i += 1;
    }
    Ok(links)
}

/// The links of the first `n` items of the nested list that is child `j` of
/// menu entry `i`: each item's first anchor, items without one contributing
/// nothing; an anchor without an href is a fatal defect.
pub open spec fn spec_nested_upto(
    html: Seq<char>,
    selector: Seq<char>,
    i: usize,
    j: usize,
    n: int,
) -> Result<Seq<NavLinkView>, DiscoveryError>
    decreases n,
{
    if n <= 0 {
        Ok(Seq::empty())
    } else {
        match spec_nested_upto(html, selector, i, j, n - 1) {
            Err(e) => Err(e),
            Ok(prev) => {
                let leaf = elems_or_empty(html, selector, seq![i, j, ((n - 1) as usize)]);
                match find_named(leaf, "a"@) {
                    None => Ok(prev),
                    Some(l) => match leaf[l].href {
                        None => Err(DiscoveryError::MenuEntryAnchorMissing),
                        Some(h) => Ok(prev.push(NavLinkView { title: leaf[l].text, href: h })),
                    },
                }
            },
        }
    }
}

/// A defect among the first `m` items decides the whole nested read.
proof fn lemma_nested_upto_error(
    html: Seq<char>,
    selector: Seq<char>,
    i: usize,
    j: usize,
    m: int,
    n: int,
)
    requires
        0 <= m <= n,
        spec_nested_upto(html, selector, i, j, m) is Err,
    ensures
        spec_nested_upto(html, selector, i, j, n) == spec_nested_upto(html, selector, i, j, m),
    decreases n,
{
    if n > m {
        lemma_nested_upto_error(html, selector, i, j, m, n - 1);
    }
}

/// What menu entry `i` yields: its first anchor as the entry's own link,
/// required to have an href, and the links of its first nested list, if any.
pub open spec fn spec_entry(html: Seq<char>, selector: Seq<char>, i: usize) -> Result<
    MenuEntryView,
    DiscoveryError,
> {
    let elems = elems_or_empty(html, selector, seq![i]);
    match find_named(elems, "a"@) {
        None => Err(DiscoveryError::MenuEntryAnchorMissing),
        Some(a) => match elems[a].href {
            None => Err(DiscoveryError::MenuEntryAnchorMissing),
            Some(h) => {
                let link = NavLinkView { title: elems[a].text, href: h };
                match find_named(elems, "ul"@) {
                    None => Ok(MenuEntryView { link: link, nested: Seq::empty() }),
                    Some(j) => {
                        let items = elems_or_empty(html, selector, seq![i, (j as usize)]);
                        match spec_nested_upto(html, selector, i, j as usize, items.len() as int) {
                            Err(e) => Err(e),
                            Ok(nested) => Ok(MenuEntryView { link: link, nested: nested }),
                        }
                    },
                }
            },
        },
    }
}

/// What the first `n` menu entries yield, in order; the first defective
/// entry decides.
pub open spec fn spec_entries_upto(html: Seq<char>, selector: Seq<char>, n: int) -> Result<
    Seq<MenuEntryView>,
    DiscoveryError,
>
    decreases n,
{
    if n <= 0 {
        Ok(Seq::empty())
    } else {
        match spec_entries_upto(html, selector, n - 1) {
            Err(e) => Err(e),
            Ok(prev) => match spec_entry(html, selector, (n - 1) as usize) {
                Err(e) => Err(e),
                Ok(ev) => Ok(prev.push(ev)),
            },
        }
    }
}

/// A defective entry among the first `m` decides the whole menu read.
proof fn lemma_entries_upto_error(html: Seq<char>, selector: Seq<char>, m: int, n: int)
    requires
        0 <= m <= n,
        spec_entries_upto(html, selector, m) is Err,
    ensures
        spec_entries_upto(html, selector, n) == spec_entries_upto(html, selector, m),
    decreases n,
{
    if n > m {
        lemma_entries_upto_error(html, selector, m, n - 1);
    }
}

/// What a section page's whole menu, read under the given selector, yields:
/// a fatal defect when the menu is absent, else its entries in order.
pub open spec fn spec_menu_entries(html: Seq<char>, selector: Seq<char>) -> Result<
    Seq<MenuEntryView>,
    DiscoveryError,
> {
    match dom::elems_at(html, selector, Seq::empty()) {
        None => Err(DiscoveryError::MenuMissing),
        Some(entries) => spec_entries_upto(html, selector, entries.len() as int),
    }
}

/// Reads a section page's navigation menu into plain menu entries, exactly
/// as `spec_menu_entries` describes the page: a fatal defect when the menu
/// container is absent or an entry's anchor is missing or bare, else one
/// entry per direct menu child, with the links of its nested list.
pub(crate) fn menu_entries_of(html: &str, selector: &str) -> (r: Result<
    Vec<MenuEntry>,
    DiscoveryError,
>)
    ensures
        (match r {
            Ok(es) => Ok(entry_views(es@)),
            Err(e) => Err::<Seq<MenuEntryView>, DiscoveryError>(e),
        }) == spec_menu_entries(html@, selector@),
{
    let empty_path: Vec<usize> = Vec::new();
    proof {
        assert(empty_path@ =~= Seq::<usize>::empty());
    }
    let entries_raw = match dom::read_elems_at(html, selector, &empty_path) {
        Some(e) => e,
        None => {
            return Err(DiscoveryError::MenuMissing);
        },
    };
    let n = entries_raw.len();
    proof {
        assert(dom::elems_at(html@, selector@, Seq::empty()) == Some(
            dom::elem_views(entries_raw@),
        ));
        assert(dom::elem_views(entries_raw@).len() == n);
    }
    let mut out: Vec<MenuEntry> = Vec::new();
    let mut i: usize = 0;
    proof {
        assert(entry_views(out@) =~= Seq::<MenuEntryView>::empty());
    }
    while i < n
        invariant
            i <= n,
            n == entries_raw@.len(),
            dom::elems_at(html@, selector@, Seq::empty()) == Some(dom::elem_views(entries_raw@)),
            spec_entries_upto(html@, selector@, i as int) == Ok::<
                Seq<MenuEntryView>,
                DiscoveryError,
            >(entry_views(out@)),
        decreases n - i,
    {
        let mut path_i: Vec<usize> = Vec::new();
        path_i.push(i);
        proof {
            assert(path_i@ =~= seq![i]);
        }
        let elems = match dom::read_elems_at(html, selector, &path_i) {
            Some(e) => e,
            None => Vec::new(),
        };
        let ghost sev = elems_or_empty(html@, selector@, seq![i]);
        proof {
            assert(dom::elem_views(elems@) == sev);
        }
        let a = match find_elem_named(&elems, "a") {
            Some(a) => a,
            None => {
                proof {
                    assert(spec_entry(html@, selector@, i) == Err::<MenuEntryView, DiscoveryError>(
                        DiscoveryError::MenuEntryAnchorMissing,
                    ));
                    lemma_entries_upto_error(html@, selector@, i as int + 1, n as int);
                }
                return Err(DiscoveryError::MenuEntryAnchorMissing);
            },
        };
        proof {
            assert(sev[a as int] == elems@[a as int]@);
        }
        let link = match &elems[a].href {
            None => {
                proof {
                    assert(spec_entry(html@, selector@, i) == Err::<MenuEntryView, DiscoveryError>(
                        DiscoveryError::MenuEntryAnchorMissing,
                    ));
                    lemma_entries_upto_error(html@, selector@, i as int + 1, n as int);
                }
                return Err(DiscoveryError::MenuEntryAnchorMissing);
            },
            Some(h) => NavLink { title: elems[a].text.clone(), href: h.clone() },
        };
        proof {
            assert(link@ == (NavLinkView { title: sev[a as int].text, href: sev[a as int].href.unwrap() }));
        }
        let mut nested: Vec<NavLink> = Vec::new();
        match find_elem_named(&elems, "ul") {
            None => {
                proof {
                    assert(link_views(nested@) =~= Seq::<NavLinkView>::empty());
                    assert(spec_entry(html@, selector@, i) == Ok::<MenuEntryView, DiscoveryError>(
                        MenuEntryView { link: link@, nested: Seq::empty() },
                    ));
                }
            },
            Some(j) => {
                let mut path_ij: Vec<usize> = Vec::new();
                path_ij.push(i);
                path_ij.push(j);
                proof {
                    assert(path_ij@ =~= seq![i, j]);
                }
                let items = match dom::read_elems_at(html, selector, &path_ij) {
                    Some(e) => e,
                    None => Vec::new(),
                };
                let ghost siv = elems_or_empty(html@, selector@, seq![i, j]);
                proof {
                    assert(dom::elem_views(items@) == siv);
                    assert(link_views(nested@) =~= Seq::<NavLinkView>::empty());
                }
                let m = items.len();
                let mut k: usize = 0;
                while k < m
                    invariant
                        k <= m,
                        i < n,
                        spec_nested_upto(html@, selector@, i, j, k as int) == Ok::<
                            Seq<NavLinkView>,
                            DiscoveryError,
                        >(link_views(nested@)),
                        spec_entries_upto(html@, selector@, i as int) == Ok::<
                            Seq<MenuEntryView>,
                            DiscoveryError,
                        >(entry_views(out@)),
                        n == entries_raw@.len(),
                        dom::elems_at(html@, selector@, Seq::empty()) == Some(
                            dom::elem_views(entries_raw@),
                        ),
                        find_named(elems_or_empty(html@, selector@, seq![i]), "a"@) == Some(
                            a as int,
                        ),
                        elems_or_empty(html@, selector@, seq![i])[a as int].href matches Some(h)
                            && link@ == (NavLinkView {
                            title: elems_or_empty(html@, selector@, seq![i])[a as int].text,
                            href: h,
                        }),
                        find_named(elems_or_empty(html@, selector@, seq![i]), "ul"@) == Some(
                            j as int,
                        ),
                        m == elems_or_empty(html@, selector@, seq![i, j]).len(),
                    decreases m - k,
                {
                    let mut path_ijk: Vec<usize> = Vec::new();
                    path_ijk.push(i);
                    path_ijk.push(j);
                    path_ijk.push(k);
                    proof {
                        assert(path_ijk@ =~= seq![i, j, k]);
                    }
                    let leaf = match dom::read_elems_at(html, selector, &path_ijk) {
                        Some(e) => e,
                        None => Vec::new(),
                    };
                    let ghost lev = elems_or_empty(html@, selector@, seq![i, j, k]);
                    proof {
                        assert(dom::elem_views(leaf@) == lev);
                    }
                    match find_elem_named(&leaf, "a") {
                        None => {
                            proof {
                                assert(spec_nested_upto(html@, selector@, i, j, k as int + 1)
                                    == Ok::<Seq<NavLinkView>, DiscoveryError>(
                                    link_views(nested@),
                                ));
                            }
                        },
                        Some(l) => {
                            proof {
                                assert(lev[l as int] == leaf@[l as int]@);
                            }
                            match &leaf[l].href {
                                None => {
                                    proof {
                                        assert(spec_nested_upto(
                                            html@,
                                            selector@,
                                            i,
                                            j,
                                            k as int + 1,
                                        ) == Err::<Seq<NavLinkView>, DiscoveryError>(
                                            DiscoveryError::MenuEntryAnchorMissing,
                                        ));
                                        lemma_nested_upto_error(
                                            html@,
                                            selector@,
                                            i,
                                            j,
                                            k as int + 1,
                                            m as int,
                                        );
                                        assert(spec_entry(html@, selector@, i) == Err::<
                                            MenuEntryView,
                                            DiscoveryError,
                                        >(DiscoveryError::MenuEntryAnchorMissing));
                                        lemma_entries_upto_error(
                                            html@,
                                            selector@,
                                            i as int + 1,
                                            n as int,
                                        );
                                    }
                                    return Err(DiscoveryError::MenuEntryAnchorMissing);
                                },
                                Some(h2) => {
                                    let nl = NavLink {
                                        title: leaf[l].text.clone(),
                                        href: h2.clone(),
                                    };
                                    proof {
                                        assert(nl@ == (NavLinkView {
                                            title: lev[l as int].text,
                                            href: lev[l as int].href.unwrap(),
                                        }));
                                        nested@.lemma_push_map_commute(|x: NavLink| x@, nl);
                                    }
                                    nested.push(nl);
                                    proof {
                                        assert(spec_nested_upto(
                                            html@,
                                            selector@,
                                            i,
                                            j,
                                            k as int + 1,
                                        ) == Ok::<Seq<NavLinkView>, DiscoveryError>(
                                            link_views(nested@),
                                        ));
                                    }
                                },
                            }
                        },
                    }
                    k += 1;
                }
                proof {
                    assert(spec_entry(html@, selector@, i) == Ok::<MenuEntryView, DiscoveryError>(
                        MenuEntryView { link: link@, nested: link_views(nested@) },
                    ));
                }
            },
        }
        let entry = MenuEntry { link: link, nested: nested };
        proof {
            assert(entry@ == (MenuEntryView { link: entry.link@, nested: link_views(entry.nested@) }));
            assert(spec_entry(html@, selector@, i) == Ok::<MenuEntryView, DiscoveryError>(entry@));
            out@.lemma_push_map_commute(|e: MenuEntry| e@, entry);
        }
        out.push(entry);
        proof {
            assert(spec_entries_upto(html@, selector@, i as int + 1) == Ok::<
                Seq<MenuEntryView>,
                DiscoveryError,
            >(entry_views(out@)));
        }
        i += 1;
    }
    Ok(out)
}

} // verus!
