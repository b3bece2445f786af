//! Orchestration of a crawl: a bounded pool of fetch permits, per-page
//! outcomes collected in any order, and a minimum-length filter on the
//! chunks of each page that succeeded.
//!
//! The coordinator is a plain state machine. The driver asks it for the next
//! page to fetch — handed out only while a permit is free — runs the fetch
//! however it likes, and reports each page's outcome back. A failed page is
//! recorded and dropped; it never aborts the crawl.

use vstd::prelude::*;
use vstd::string::StrSliceExecFns;

use crate::document::{Chunk, ChunkView};
use crate::document::mv::{MieuxVivreMetadata, MieuxVivreMetadataView, PageError};
use crate::discover::PageDescriptor;
use crate::segment::chunk_views;

verus! {

/// A chunk whose text is no longer than this is dropped from the final
/// aggregate: near-empty or boilerplate passages are not worth retrieving.
pub const TEXT_MIN_LENGTH: usize = 42;

/// Whether a chunk is long enough to keep.
pub open spec fn long_enough(c: ChunkView<MieuxVivreMetadataView>) -> bool {
    c.text.len() > TEXT_MIN_LENGTH
}

/// Keeps exactly the chunks whose text is longer than `TEXT_MIN_LENGTH`
/// characters, in order.
pub fn filter_chunks(chunks: Vec<Chunk<MieuxVivreMetadata>>) -> (kept: Vec<
    Chunk<MieuxVivreMetadata>,
>)
    ensures
        chunk_views(kept@) == chunk_views(chunks@).filter(|c| long_enough(c)),
{
    let ghost orig = chunks@;
    let mut rest = chunks;
    let mut kept: Vec<Chunk<MieuxVivreMetadata>> = Vec::new();
    let ghost pred = |c: ChunkView<MieuxVivreMetadataView>| long_enough(c);
    let ghost mut i: int = 0;
    proof {
        assert(orig.take(0) =~= Seq::<Chunk<MieuxVivreMetadata>>::empty());
        assert(chunk_views(kept@) =~= chunk_views(orig.take(0)).filter(pred));
    }
    while rest.len() > 0
        invariant
            pred == (|c: ChunkView<MieuxVivreMetadataView>| long_enough(c)),
            0 <= i <= orig.len(),
            i + rest@.len() == orig.len(),
            rest@ == orig.skip(i),
            chunk_views(kept@) == chunk_views(orig.take(i)).filter(pred),
        decreases rest.len(),
    {
        let c = rest.remove(0);
        proof {
            reveal_with_fuel(Seq::<ChunkView<MieuxVivreMetadataView>>::filter, 2);
            assert(c == orig[i]);
            assert(rest@ =~= orig.skip(i + 1));
            let tv = chunk_views(orig.take(i + 1));
            assert(orig.take(i + 1).drop_last() =~= orig.take(i));
            assert(orig.take(i + 1).last() == orig[i]);
            assert(tv =~= chunk_views(orig.take(i)).push(c@));
            assert(tv.drop_last() =~= chunk_views(orig.take(i)));
            assert(tv.last() == c@);
            assert(tv.filter(pred) == (if pred(c@) {
                chunk_views(orig.take(i)).filter(pred).push(c@)
            } else {
                chunk_views(orig.take(i)).filter(pred)
            }));
        }
        proof {
            assert(pred(c@) == long_enough(c@));
        }
        if c.text.as_str().unicode_len() > TEXT_MIN_LENGTH {
            proof {
                kept@.lemma_push_map_commute(|x: Chunk<MieuxVivreMetadata>| x@, c);
            }
            kept.push(c);
        }
        proof {
            assert(chunk_views(kept@) == chunk_views(orig.take(i + 1)).filter(pred));
            i = i + 1;
        }
    }
    proof {
        assert(orig.take(orig.len() as int) =~= orig);
    }
    kept
}

/// The crawl's shared state: the pages not yet started, how many fetches are
/// in flight, the fixed permit capacity, the chunks aggregated so far, and
/// the recoverable per-page failures seen so far.
pub struct CrawlCoordinator {
    pub pending: Vec<PageDescriptor>,
    pub in_flight: usize,
    pub capacity: usize,
    pub chunks: Vec<Chunk<MieuxVivreMetadata>>,
    pub failures: Vec<PageError>,
}

impl CrawlCoordinator {
    /// The coordinator's invariant: the permit pool has a positive capacity
    /// and never more fetches in flight than permits.
    pub open spec fn wf(&self) -> bool {
        1 <= self.capacity && self.in_flight <= self.capacity
    }

    /// A fresh crawl over the given pages with a pool of `capacity` permits.
    pub fn new(pages: Vec<PageDescriptor>, capacity: usize) -> (c: CrawlCoordinator)
        requires
            capacity >= 1,
        ensures
            c.wf(),
            c.pending@ == pages@,
            c.in_flight == 0,
            c.capacity == capacity,
            c.chunks@.len() == 0,
            c.failures@.len() == 0,
    {
        CrawlCoordinator {
            pending: pages,
            in_flight: 0,
            capacity: capacity,
            chunks: Vec::new(),
            failures: Vec::new(),
        }
    }

    /// Hands out the next page to fetch, if any is pending and a permit is
    /// free. While `capacity` fetches are in flight, nothing is handed out:
    /// back-pressure applies before the fetch is started.
    pub fn next_fetch(&mut self) -> (next: Option<PageDescriptor>)
        requires
            old(self).wf(),
        ensures
            final(self).wf(),
            final(self).capacity == old(self).capacity,
            final(self).chunks == old(self).chunks,
            final(self).failures == old(self).failures,
            match next {
                Some(d) => {
                    &&& old(self).in_flight < old(self).capacity
                    &&& old(self).pending@.len() > 0
                    &&& d == old(self).pending@.last()
                    &&& final(self).pending@ == old(self).pending@.drop_last()
                    &&& final(self).in_flight == old(self).in_flight + 1
                },
                None => {
                    &&& *final(self) == *old(self)
                    &&& (old(self).in_flight == old(self).capacity || old(self).pending@.len()
                        == 0)
                },
            },
    {
        if self.in_flight < self.capacity && self.pending.len() > 0 {
            let d = self.pending.remove(self.pending.len() - 1);
            proof {
                assert(self.pending@ =~= old(self).pending@.drop_last());
            }
            self.in_flight = self.in_flight + 1;
            Some(d)
        } else {
            None
        }
    }

    /// Takes one finished page's outcome. The chunks of a page that
    /// succeeded are appended to the aggregate after the minimum-length
    /// filter; a page that failed is recorded and dropped, and never aborts
    /// the crawl. Either way its permit is given back.
    pub fn complete(&mut self, outcome: Result<Vec<Chunk<MieuxVivreMetadata>>, PageError>)
        requires
            old(self).wf(),
            old(self).in_flight >= 1,
        ensures
            final(self).wf(),
            final(self).capacity == old(self).capacity,
            final(self).pending == old(self).pending,
            final(self).in_flight == old(self).in_flight - 1,
            match outcome {
                Ok(cs) => {
                    &&& chunk_views(final(self).chunks@) == chunk_views(old(self).chunks@)
                        + chunk_views(cs@).filter(|c| long_enough(c))
                    &&& final(self).failures == old(self).failures
                },
                Err(e) => {
                    &&& final(self).chunks == old(self).chunks
                    &&& final(self).failures@ == old(self).failures@.push(e)
                },
            },
    {
        self.in_flight = self.in_flight - 1;
        match outcome {
            Ok(cs) => {
                let mut kept = filter_chunks(cs);
                let ghost before = self.chunks@;
                let ghost added = kept@;
                self.chunks.append(&mut kept);
                proof {
                    assert(self.chunks@ == before + added);
                    assert(chunk_views(before + added) =~= chunk_views(before) + chunk_views(
                        added,
                    ));
                }
            },
            Err(e) => {
                self.failures.push(e);
            },
        }
    }

    /// Whether every page has been handed out and every outcome reported.
    pub fn done(&self) -> (d: bool)
        ensures
            d == (self.pending@.len() == 0 && self.in_flight == 0),
    {
        self.pending.len() == 0 && self.in_flight == 0
    }

    /// How many fetches are in flight right now.
    pub fn in_flight_count(&self) -> (n: usize)
        ensures
            n == self.in_flight,
    {
        self.in_flight
    }

    /// How many pages failed so far.
    pub fn failure_count(&self) -> (n: usize)
        ensures
            n == self.failures@.len(),
    {
        self.failures.len()
    }

    /// The final aggregate, once the crawl is done.
    pub fn into_chunks(self) -> (chunks: Vec<Chunk<MieuxVivreMetadata>>)
        ensures
            chunks == self.chunks,
    {
        self.chunks
    }
}

/// However the driver interleaves its fetches, a well-formed coordinator
/// never has more fetches in flight than the permit pool's capacity.
pub proof fn lemma_in_flight_bounded(c: CrawlCoordinator)
    requires
        c.wf(),
    ensures
        c.in_flight <= c.capacity,
{
}

} // verus!
