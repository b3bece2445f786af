//! The content segmentation engine.
//!
//! A fetched page's main container is read as an ordered sequence of content
//! nodes (tag name plus flattened text). A single left-to-right pass turns
//! them into chunks: headings update the heading context, paragraphs and
//! generic blocks each emit one chunk, lists are appended to the most recent
//! chunk, and anything else is skipped.

use vstd::prelude::*;
use vstd::string::StrSliceExecFns;
use vstd::string::StringExecFns;

use crate::document::{Chunk, ChunkView};
use crate::document::mv::{MieuxVivreMetadata, MieuxVivreMetadataView};

verus! {

/// The kinds of content node the segmenter distinguishes.
#[derive(Debug, Clone, Copy, PartialEq, Eq, Structural)]
pub enum NodeKind {
    /// A heading of level 2 to 4: updates the heading context, emits nothing.
    Heading,
    /// A paragraph: emits one chunk under the current heading.
    Paragraph,
    /// A generic block or article: clears the heading context, then emits one
    /// self-contained chunk.
    Block,
    /// An ordered or unordered list: appended to the most recent chunk, or
    /// emitted on its own if no chunk exists yet.
    List,
    /// Any other node: skipped.
    Other,
}

/// One content element of a page: its tag name and its flattened text.
#[derive(Debug, Clone)]
pub struct ContentNode {
    pub name: String,
    pub text: String,
}

/// The model of a content node.
pub struct ContentNodeView {
    pub name: Seq<char>,
    pub text: Seq<char>,
}

impl View for ContentNode {
    type V = ContentNodeView;

    open spec fn view(&self) -> ContentNodeView {
        ContentNodeView { name: self.name@, text: self.text@ }
    }
}

/// The static context of one page; every chunk cut from the page carries it.
#[derive(Debug, Clone)]
pub struct PageMeta {
    pub title: String,
    pub section: String,
    pub subsection: String,
    pub url: String,
}

/// The model of a page's static context.
pub struct PageMetaView {
    pub title: Seq<char>,
    pub section: Seq<char>,
    pub subsection: Seq<char>,
    pub url: Seq<char>,
}

impl View for PageMeta {
    type V = PageMetaView;

    open spec fn view(&self) -> PageMetaView {
        PageMetaView {
            title: self.title@,
            section: self.section@,
            subsection: self.subsection@,
            url: self.url@,
        }
    }
}

/// The heading context as a value.
pub open spec fn view_opt(h: Option<String>) -> Option<Seq<char>> {
    match h {
        Some(s) => Some(s@),
        None => None,
    }
}

/// How a tag name is classified.
pub open spec fn spec_kind_of(name: Seq<char>) -> NodeKind {
    if name == "h2"@ || name == "h3"@ || name == "h4"@ {
        NodeKind::Heading
    } else if name == "p"@ {
        NodeKind::Paragraph
    } else if name == "div"@ || name == "article"@ {
        NodeKind::Block
    } else if name == "ul"@ || name == "ol"@ {
        NodeKind::List
    } else {
        NodeKind::Other
    }
}

/// Classifies a tag name.
pub fn kind_of_name(name: &String) -> (k: NodeKind)
    ensures
        k == spec_kind_of(name@),
{
    if str_eq(name.as_str(), "h2") || str_eq(name.as_str(), "h3") || str_eq(name.as_str(), "h4") {
        NodeKind::Heading
    } else if str_eq(name.as_str(), "p") {
        NodeKind::Paragraph
    } else if str_eq(name.as_str(), "div") || str_eq(name.as_str(), "article") {
        NodeKind::Block
    } else if str_eq(name.as_str(), "ul") || str_eq(name.as_str(), "ol") {
        NodeKind::List
    } else {
        NodeKind::Other
    }
}

/// Whether two string slices hold the same characters.
pub fn str_eq(a: &str, b: &str) -> (r: bool)
    ensures
        r == (a@ == b@),
{
    let la = a.unicode_len();
    let lb = b.unicode_len();
    if la != lb {
        return false;
    }
    let mut i: usize = 0;
    while i < la
        invariant
            la == a@.len(),
            la == b@.len(),
            i <= la,
            forall|k: int| 0 <= k < i ==> a@[k] == b@[k],
        decreases la - i,
    {
        if a.get_char(i) != b.get_char(i) {
            return false;
        }
        i += 1;
    }
    proof {
        assert(a@ =~= b@);
    }
    true
}

/// The chunk that one emitting node produces: its text, the heading context
/// it was emitted under, and the page's static context.
pub open spec fn mk_chunk(
    text: Seq<char>,
    heading: Option<Seq<char>>,
    meta: PageMetaView,
) -> ChunkView<MieuxVivreMetadataView> {
    ChunkView {
        text: text,
        metadata: MieuxVivreMetadataView {
            title: meta.title,
            section: meta.section,
            subsection: meta.subsection,
            heading: heading,
            url: meta.url,
        },
    }
}

/// The segmenter's state while walking one page: the current heading context
/// and the chunks emitted so far, in document order.
pub struct SegState {
    pub heading: Option<Seq<char>>,
    pub chunks: Seq<ChunkView<MieuxVivreMetadataView>>,
}

/// The state before any node is visited.
pub open spec fn seg_init() -> SegState {
    SegState { heading: None, chunks: Seq::empty() }
}

/// One step of the segmentation state machine, on one content node.
pub open spec fn seg_step(st: SegState, node: ContentNodeView, meta: PageMetaView) -> SegState {
    match spec_kind_of(node.name) {
        NodeKind::Heading => SegState { heading: Some(node.text), chunks: st.chunks },
        NodeKind::Paragraph => SegState {
            heading: st.heading,
            chunks: st.chunks.push(mk_chunk(node.text, st.heading, meta)),
        },
        NodeKind::Block => SegState {
            heading: None,
            chunks: st.chunks.push(mk_chunk(node.text, None, meta)),
        },
        NodeKind::List => if st.chunks.len() == 0 {
            SegState {
                heading: st.heading,
                chunks: st.chunks.push(mk_chunk(node.text, st.heading, meta)),
            }
        } else {
            SegState {
                heading: st.heading,
                chunks: st.chunks.update(
                    st.chunks.len() - 1,
                    ChunkView {
                        text: st.chunks.last().text + "\n"@ + node.text,
                        metadata: st.chunks.last().metadata,
                    },
                ),
            }
        },
        NodeKind::Other => st,
    }
}

/// The state after walking a whole node sequence, left to right.
pub open spec fn seg_fold(nodes: Seq<ContentNodeView>, meta: PageMetaView) -> SegState
    decreases nodes.len(),
{
    if nodes.len() == 0 {
        seg_init()
    } else {
        seg_step(seg_fold(nodes.drop_last(), meta), nodes.last(), meta)
    }
}

/// The chunk sequence a page's content nodes segment into.
pub open spec fn spec_segment(
    nodes: Seq<ContentNodeView>,
    meta: PageMetaView,
) -> Seq<ChunkView<MieuxVivreMetadataView>> {
    seg_fold(nodes, meta).chunks
}

/// The models of a sequence of content nodes.
pub open spec fn node_views(nodes: Seq<ContentNode>) -> Seq<ContentNodeView> {
    nodes.map_values(|n: ContentNode| n@)
}

/// The models of a sequence of chunks.
pub open spec fn chunk_views(
    chunks: Seq<Chunk<MieuxVivreMetadata>>,
) -> Seq<ChunkView<MieuxVivreMetadataView>> {
    chunks.map_values(|c: Chunk<MieuxVivreMetadata>| c@)
}

/// Folding one more node is one more step.
proof fn lemma_seg_fold_take_step(nodes: Seq<ContentNodeView>, meta: PageMetaView, i: int)
    requires
        0 <= i < nodes.len(),
    ensures
        seg_fold(nodes.take(i + 1), meta) == seg_step(seg_fold(nodes.take(i), meta), nodes[i], meta),
{
    assert(nodes.take(i + 1).drop_last() =~= nodes.take(i));
    assert(nodes.take(i + 1).last() == nodes[i]);
}

fn clone_opt_string(h: &Option<String>) -> (r: Option<String>)
    ensures
        r == *h,
{
    match h {
        Some(s) => Some(s.clone()),
        None => None,
    }
}

/// Builds the chunk a node emits, under the given heading context.
fn make_chunk(text: &String, heading: &Option<String>, meta: &PageMeta) -> (c: Chunk<
    MieuxVivreMetadata,
>)
    ensures
        c@ == mk_chunk(text@, view_opt(*heading), meta@),
{
    Chunk {
        text: text.clone(),
        metadata: MieuxVivreMetadata {
            title: meta.title.clone(),
            section: meta.section.clone(),
            subsection: meta.subsection.clone(),
            heading: clone_opt_string(heading),
            url: meta.url.clone(),
        },
    }
}

/// Cuts one page's ordered content nodes into chunks.
///
/// This is a single pass of the segmentation state machine: headings of level
/// 2 to 4 update the heading context without emitting, paragraphs emit one
/// chunk each under that context, generic blocks clear the context and emit a
/// self-contained chunk, lists are folded into the most recent chunk (or
/// stand alone when none exists yet), and unknown nodes are skipped.
pub fn segment(nodes: &Vec<ContentNode>, meta: &PageMeta) -> (chunks: Vec<Chunk<MieuxVivreMetadata>>)
    ensures
        chunk_views(chunks@) == spec_segment(node_views(nodes@), meta@),
{
    let ghost nv = node_views(nodes@);
    let mut heading: Option<String> = None;
    let mut chunks: Vec<Chunk<MieuxVivreMetadata>> = Vec::new();
    let mut i: usize = 0;
    proof {
        assert(nv.take(0) =~= Seq::<ContentNodeView>::empty());
    }
    while i < nodes.len()
        invariant
            i <= nodes.len(),
            nv == node_views(nodes@),
            nv.len() == nodes@.len(),
            view_opt(heading) == seg_fold(nv.take(i as int), meta@).heading,
            chunk_views(chunks@) == seg_fold(nv.take(i as int), meta@).chunks,
        decreases nodes.len() - i,
    {
        let node = &nodes[i];
        proof {
            lemma_seg_fold_take_step(nv, meta@, i as int);
            assert(nv[i as int] == nodes@[i as int]@);
        }
        let ghost pre = seg_fold(nv.take(i as int), meta@);
        match kind_of_name(&node.name) {
            NodeKind::Heading => {
                heading = Some(node.text.clone());
            },
            NodeKind::Paragraph => {
                let c = make_chunk(&node.text, &heading, meta);
                chunks.push(c);
                proof {
                    assert(chunk_views(chunks@) =~= pre.chunks.push(
                        mk_chunk(nv[i as int].text, pre.heading, meta@),
                    ));
                }
            },
            NodeKind::Block => {
                heading = None;
                let c = make_chunk(&node.text, &heading, meta);
                chunks.push(c);
                proof {
                    assert(chunk_views(chunks@) =~= pre.chunks.push(
                        mk_chunk(nv[i as int].text, None, meta@),
                    ));
                }
            },
            NodeKind::List => {
                if chunks.len() == 0 {
                    let c = make_chunk(&node.text, &heading, meta);
                    chunks.push(c);
                    proof {
                        assert(pre.chunks.len() == 0);
                        assert(chunk_views(chunks@) =~= pre.chunks.push(
                            mk_chunk(nv[i as int].text, pre.heading, meta@),
                        ));
                    }
                } else {
                    let mut last = chunks.remove(chunks.len() - 1);
                    last.text.append("\n");
                    last.text.append(node.text.as_str());
                    chunks.push(last);
                    proof {
                        assert(chunk_views(chunks@) =~= pre.chunks.update(
                            pre.chunks.len() - 1,
                            ChunkView {
                                text: pre.chunks.last().text + "\n"@ + nv[i as int].text,
                                metadata: pre.chunks.last().metadata,
                            },
                        ));
                    }
                }
            },
            NodeKind::Other => {},
        }
        i += 1;
    }
    proof {
        assert(nv.take(nodes@.len() as int) =~= nv);
    }
    chunks
}

/// The heading context after walking a node sequence: the text of the
/// nearest heading from the right, unless a block comes later, which clears
/// it.
pub open spec fn heading_after(nodes: Seq<ContentNodeView>) -> Option<Seq<char>>
    decreases nodes.len(),
{
    if nodes.len() == 0 {
        None
    } else {
        match spec_kind_of(nodes.last().name) {
            NodeKind::Heading => Some(nodes.last().text),
            NodeKind::Block => None,
            _ => heading_after(nodes.drop_last()),
        }
    }
}

/// The fold's heading context is `heading_after`, whatever the page context.
pub proof fn lemma_heading_after(nodes: Seq<ContentNodeView>, meta: PageMetaView)
    ensures
        seg_fold(nodes, meta).heading == heading_after(nodes),
    decreases nodes.len(),
{
    if nodes.len() > 0 {
        lemma_heading_after(nodes.drop_last(), meta);
    }
}

/// The indices of the nodes that emit a new chunk, in document order.
pub open spec fn emitters(nodes: Seq<ContentNodeView>) -> Seq<int>
    decreases nodes.len(),
{
    if nodes.len() == 0 {
        Seq::empty()
    } else {
        let prev = emitters(nodes.drop_last());
        match spec_kind_of(nodes.last().name) {
            NodeKind::Paragraph => prev.push(nodes.len() - 1),
            NodeKind::Block => prev.push(nodes.len() - 1),
            NodeKind::List => if prev.len() == 0 {
                prev.push(nodes.len() - 1)
            } else {
                prev
            },
            _ => prev,
        }
    }
}

/// There is one chunk for each emitting node.
pub proof fn lemma_chunk_count(nodes: Seq<ContentNodeView>, meta: PageMetaView)
    ensures
        spec_segment(nodes, meta).len() == emitters(nodes).len(),
    decreases nodes.len(),
{
    if nodes.len() > 0 {
        lemma_chunk_count(nodes.drop_last(), meta);
    }
}

/// The emitting nodes stand in strictly increasing document order, within
/// bounds: the chunk sequence preserves the document order of the paragraph,
/// block and list nodes it came from.
pub proof fn lemma_emitters_increasing(nodes: Seq<ContentNodeView>)
    ensures
        forall|i: int|
            0 <= i < emitters(nodes).len() ==> 0 <= #[trigger] emitters(nodes)[i] < nodes.len(),
        forall|i: int, j: int|
            0 <= i < j < emitters(nodes).len() ==> #[trigger] emitters(nodes)[i]
                < #[trigger] emitters(nodes)[j],
    decreases nodes.len(),
{
    if nodes.len() > 0 {
        let prev = nodes.drop_last();
        lemma_emitters_increasing(prev);
        let pem = emitters(prev);
        let em = emitters(nodes);
        assert(prev.len() == nodes.len() - 1);
        assert(em == pem || em == pem.push(nodes.len() - 1));
        if em == pem.push(nodes.len() - 1) {
            assert forall|i: int| 0 <= i < em.len() implies 0 <= #[trigger] em[i] < nodes.len() by {
                if i < pem.len() {
                    assert(em[i] == pem[i]);
                } else {
                    assert(em[i] == nodes.len() - 1);
                }
            }
            assert forall|i: int, j: int|
                0 <= i < j < em.len() implies #[trigger] em[i] < #[trigger] em[j] by {
                if j < pem.len() {
                    assert(em[i] == pem[i] && em[j] == pem[j]);
                } else {
                    assert(em[j] == nodes.len() - 1);
                    assert(em[i] == pem[i] && pem[i] < prev.len());
                }
            }
        } else {
            assert forall|i: int| 0 <= i < em.len() implies 0 <= #[trigger] em[i] < nodes.len() by {
                assert(em[i] == pem[i]);
            }
            assert forall|i: int, j: int|
                0 <= i < j < em.len() implies #[trigger] em[i] < #[trigger] em[j] by {
                assert(em[i] == pem[i] && em[j] == pem[j]);
            }
        }
    }
}

/// Taking a prefix commutes with dropping the last node.
proof fn lemma_take_of_drop_last(nodes: Seq<ContentNodeView>, e: int)
    requires
        0 <= e <= nodes.len() - 1,
    ensures
        nodes.drop_last().take(e) == nodes.take(e),
{
    assert(nodes.drop_last().take(e) =~= nodes.take(e));
}

/// Each chunk carries its emitting node's text as a prefix (lists may have
/// been appended after it), and the heading context the page had at that
/// node: the heading set by the nearest preceding heading node, none if a
/// block intervened, and none for the chunk a block node itself emits.
pub proof fn lemma_chunk_origin(nodes: Seq<ContentNodeView>, meta: PageMetaView, k: int)
    requires
        0 <= k < spec_segment(nodes, meta).len(),
    ensures
        emitters(nodes).len() == spec_segment(nodes, meta).len(),
        ({
            let e = emitters(nodes)[k];
            &&& 0 <= e < nodes.len()
            &&& nodes[e].text.is_prefix_of(spec_segment(nodes, meta)[k].text)
            &&& spec_segment(nodes, meta)[k].metadata.heading == (
                if spec_kind_of(nodes[e].name) == NodeKind::Block {
                    None::<Seq<char>>
                } else {
                    heading_after(nodes.take(e))
                })
        }),
    decreases nodes.len(),
{
    lemma_chunk_count(nodes, meta);
    let prev = nodes.drop_last();
    let chunks = spec_segment(nodes, meta);
    let e = emitters(nodes)[k];
    if nodes.len() == 0 {
        // no chunks at all; nothing to show
    } else {
        let pre = seg_fold(prev, meta);
        lemma_chunk_count(prev, meta);
        lemma_heading_after(prev, meta);
        assert(prev =~= nodes.take(nodes.len() - 1));
        match spec_kind_of(nodes.last().name) {
            NodeKind::Heading => {
                lemma_chunk_origin(prev, meta, k);
                lemma_emitters_increasing(prev);
                lemma_take_of_drop_last(nodes, emitters(prev)[k]);
            },
            NodeKind::Other => {
                lemma_chunk_origin(prev, meta, k);
                lemma_emitters_increasing(prev);
                lemma_take_of_drop_last(nodes, emitters(prev)[k]);
            },
            NodeKind::Paragraph => {
                if k < pre.chunks.len() {
                    lemma_chunk_origin(prev, meta, k);
                    lemma_emitters_increasing(prev);
                    lemma_take_of_drop_last(nodes, emitters(prev)[k]);
                } else {
                    assert(e == nodes.len() - 1);
                    assert(chunks[k] == mk_chunk(nodes.last().text, pre.heading, meta));
                    assert(nodes[e].text.is_prefix_of(chunks[k].text)) by {
                        assert(chunks[k].text.subrange(0, nodes[e].text.len() as int) =~= nodes[e].text);
                    }
                }
            },
            NodeKind::Block => {
                if k < pre.chunks.len() {
                    lemma_chunk_origin(prev, meta, k);
                    lemma_emitters_increasing(prev);
                    lemma_take_of_drop_last(nodes, emitters(prev)[k]);
                } else {
                    assert(e == nodes.len() - 1);
                    assert(chunks[k] == mk_chunk(nodes.last().text, None, meta));
                    assert(nodes[e].text.is_prefix_of(chunks[k].text)) by {
                        assert(chunks[k].text.subrange(0, nodes[e].text.len() as int) =~= nodes[e].text);
                    }
                }
            },
            NodeKind::List => {
                if pre.chunks.len() == 0 {
                    assert(k == 0 && e == nodes.len() - 1);
                    assert(chunks[k] == mk_chunk(nodes.last().text, pre.heading, meta));
                    assert(nodes[e].text.is_prefix_of(chunks[k].text)) by {
                        assert(chunks[k].text.subrange(0, nodes[e].text.len() as int) =~= nodes[e].text);
                    }
                } else {
                    lemma_chunk_origin(prev, meta, k);
                    lemma_emitters_increasing(prev);
                    lemma_take_of_drop_last(nodes, emitters(prev)[k]);
                    if k == pre.chunks.len() - 1 {
                        let old_text = pre.chunks[k].text;
                        let p = nodes[e].text;
                        assert(p.is_prefix_of(old_text));
                        assert(chunks[k].text == old_text + "\n"@ + nodes.last().text);
                        assert(p.is_prefix_of(chunks[k].text)) by {
                            assert(chunks[k].text.subrange(0, p.len() as int) =~= p);
                        }
                    }
                }
            },
        }
    }
}

/// A list node coming right after a paragraph node is folded into that
/// paragraph's chunk, separated by a newline; it emits no chunk of its own
/// and every earlier chunk stands unchanged.
pub proof fn lemma_list_follows_paragraph(nodes: Seq<ContentNodeView>, meta: PageMetaView, j: int)
    requires
        0 <= j,
        j + 2 <= nodes.len(),
        spec_kind_of(nodes[j].name) == NodeKind::Paragraph,
        spec_kind_of(nodes[j + 1].name) == NodeKind::List,
    ensures
        ({
            let before = spec_segment(nodes.take(j + 1), meta);
            let after = spec_segment(nodes.take(j + 2), meta);
            &&& after.len() == before.len()
            &&& before.len() > 0
            &&& after.last().text == before.last().text + "\n"@ + nodes[j + 1].text
            &&& after.last().metadata == before.last().metadata
            &&& forall|k: int| 0 <= k < before.len() - 1 ==> after[k] == before[k]
        }),
{
    lemma_seg_fold_take_step(nodes, meta, j);
    lemma_seg_fold_take_step(nodes, meta, j + 1);
}

/// A list node visited while no chunk exists yet emits exactly one
/// standalone chunk holding its own flattened text.
pub proof fn lemma_list_standalone(nodes: Seq<ContentNodeView>, meta: PageMetaView, j: int)
    requires
        0 <= j < nodes.len(),
        spec_kind_of(nodes[j].name) == NodeKind::List,
        spec_segment(nodes.take(j), meta).len() == 0,
    ensures
        spec_segment(nodes.take(j + 1), meta) == seq![
            mk_chunk(nodes[j].text, heading_after(nodes.take(j)), meta),
        ],
{
    lemma_seg_fold_take_step(nodes, meta, j);
    lemma_heading_after(nodes.take(j), meta);
    assert(spec_segment(nodes.take(j + 1), meta) =~= seq![
        mk_chunk(nodes[j].text, heading_after(nodes.take(j)), meta),
    ]);
}

/// A heading node sets the heading context for everything after it, up to
/// the next heading or block node.
pub proof fn lemma_heading_scope(nodes: Seq<ContentNodeView>, i: int, j: int)
    requires
        0 <= i < j <= nodes.len(),
        spec_kind_of(nodes[i].name) == NodeKind::Heading,
        forall|k: int|
            i < k < j ==> #[trigger] spec_kind_of(nodes[k].name) != NodeKind::Heading
                && spec_kind_of(nodes[k].name) != NodeKind::Block,
    ensures
        heading_after(nodes.take(j)) == Some(nodes[i].text),
    decreases j,
{
    if j == i + 1 {
        assert(nodes.take(j).last() == nodes[i]);
    } else {
        assert(nodes.take(j).last() == nodes[j - 1]);
        assert(nodes.take(j).drop_last() =~= nodes.take(j - 1));
        lemma_heading_scope(nodes, i, j - 1);
    }
}

/// Before any heading node has been visited, the heading context is empty.
pub proof fn lemma_no_heading_before_first(nodes: Seq<ContentNodeView>, j: int)
    requires
        0 <= j <= nodes.len(),
        forall|k: int| 0 <= k < j ==> #[trigger] spec_kind_of(nodes[k].name) != NodeKind::Heading,
    ensures
        heading_after(nodes.take(j)) == None::<Seq<char>>,
    decreases j,
{
    if j > 0 {
        assert(nodes.take(j).last() == nodes[j - 1]);
        assert(nodes.take(j).drop_last() =~= nodes.take(j - 1));
        lemma_no_heading_before_first(nodes, j - 1);
    }
}

/// A block node clears the heading context for everything after it, until a
/// new heading is seen.
pub proof fn lemma_block_resets_heading(nodes: Seq<ContentNodeView>, i: int, j: int)
    requires
        0 <= i < j <= nodes.len(),
        spec_kind_of(nodes[i].name) == NodeKind::Block,
        forall|k: int|
            i < k < j ==> #[trigger] spec_kind_of(nodes[k].name) != NodeKind::Heading,
    ensures
        heading_after(nodes.take(j)) == None::<Seq<char>>,
    decreases j,
{
    if j == i + 1 {
        assert(nodes.take(j).last() == nodes[i]);
    } else {
        assert(nodes.take(j).last() == nodes[j - 1]);
        assert(nodes.take(j).drop_last() =~= nodes.take(j - 1));
        lemma_block_resets_heading(nodes, i, j - 1);
    }
}

/// Every chunk of a page carries that page's title, section, subsection and
/// URL, exactly as handed to the segmenter.
pub proof fn lemma_chunk_page_context(nodes: Seq<ContentNodeView>, meta: PageMetaView, k: int)
    requires
        0 <= k < spec_segment(nodes, meta).len(),
    ensures
        spec_segment(nodes, meta)[k].metadata.title == meta.title,
        spec_segment(nodes, meta)[k].metadata.section == meta.section,
        spec_segment(nodes, meta)[k].metadata.subsection == meta.subsection,
        spec_segment(nodes, meta)[k].metadata.url == meta.url,
    decreases nodes.len(),
{
    if nodes.len() > 0 {
        let prev = nodes.drop_last();
        let pre = seg_fold(prev, meta);
        if k < pre.chunks.len() {
            lemma_chunk_page_context(prev, meta, k);
        }
    }
}

} // verus!
