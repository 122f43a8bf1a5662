use vstd::prelude::*;

use crate::model::image::Image;
use crate::model::link::LinkView;
use crate::model::link_graph::{has_url, update_spec, GraphError, LinkGraph};

verus! {

/// What to scrape from each visited page, besides its outbound links.
pub enum ScrapeOption {
    /// collect the images found on the page
    Images,
    /// collect the page's titles
    Titles,
}

/// What one fetch-and-extract pass over a page produced: the outbound links
/// (already resolved to absolute form), and the images and titles that were
/// asked for.
pub struct ScrapeOutput {
    pub links: Vec<String>,
    pub images: Vec<Image>,
    pub titles: Vec<String>,
}

impl ScrapeOutput {
    /// The degraded result of a failed fetch or parse: a page with nothing on
    /// it. A single page failure is never fatal to a crawl.
    pub fn empty() -> (out: ScrapeOutput)
        ensures
            out.links.deep_view() == Seq::<Seq<char>>::empty(),
            out.images.deep_view() == Seq::<crate::model::image::ImageView>::empty(),
            out.titles.deep_view() == Seq::<Seq<char>>::empty(),
    {
        let out = ScrapeOutput { links: Vec::new(), images: Vec::new(), titles: Vec::new() };
        proof {
            assert(out.links.deep_view() =~= Seq::<Seq<char>>::empty());
            assert(out.images.deep_view() =~= Seq::<crate::model::image::ImageView>::empty());
            assert(out.titles.deep_view() =~= Seq::<Seq<char>>::empty());
        }
        out
    }
}

/// A pending visit with provenance: the URL to visit next and the URL of the
/// page that referred to it (empty for the seed).
pub struct LinkPath {
    pub parent: String,
    pub child: String,
}

/// The mathematical content of a [`LinkPath`].
#[verifier::ext_equal]
pub struct LinkPathView {
    pub parent: Seq<char>,
    pub child: Seq<char>,
}

impl View for LinkPath {
    type V = LinkPathView;

    open spec fn view(&self) -> LinkPathView {
        LinkPathView { parent: self.parent@, child: self.child@ }
    }
}

/// The worklist of pending visits. Entries come back out in LIFO order: the
/// most recently discovered link is visited next. (The alternative, FIFO,
/// would change which pages fall inside the budget, not any graph invariant.)
pub struct Frontier {
    entries: Vec<LinkPath>,
}

impl View for Frontier {
    type V = Seq<LinkPathView>;

    closed spec fn view(&self) -> Seq<LinkPathView> {
        self.entries@.map_values(|p: LinkPath| p@)
    }
}

impl Frontier {
    /// An empty worklist.
    pub fn new() -> (f: Frontier)
        ensures
            f@ == Seq::<LinkPathView>::empty(),
    {
        let f = Frontier { entries: Vec::new() };
        proof {
            assert(f@ =~= Seq::<LinkPathView>::empty());
        }
        f
    }

    /// Appends one pending visit; no entry is ever dropped.
    pub fn push(&mut self, path: LinkPath)
        ensures
            final(self)@ == old(self)@.push(path@),
    {
        let ghost p = path@;
        self.entries.push(path);
        proof {
            assert(self@ =~= old(self)@.push(p));
        }
    }

    /// Removes and returns the most recently pushed entry; on an empty
    /// worklist returns nothing (not an error) and callers poll again later.
    pub fn pop(&mut self) -> (r: Option<LinkPath>)
        ensures
            old(self)@.len() == 0 ==> r is None && final(self)@ == old(self)@,
            old(self)@.len() > 0 ==> (r matches Some(p) && p@ == old(self)@.last() && final(self)@ == old(self)@.drop_last()),
    {
        let r = self.entries.pop();
        proof {
            if old(self)@.len() > 0 {
                assert(self@ =~= old(self)@.drop_last());
            } else {
                assert(self@ =~= old(self)@);
            }
        }
        r
    }

    /// How many visits are pending.
    pub fn len(&self) -> (n: usize)
        ensures
            n == self@.len(),
    {
        self.entries.len()
    }
}

/// The shared state of one crawl run: the worklist, the graph, and the
/// immutable page budget. Workers keep going until the number of claimed
/// pages exceeds `max_links`.
pub struct CrawlerState {
    pub frontier: Frontier,
    pub graph: LinkGraph,
    pub max_links: usize,
}

/// What a worker decided to do after checking the budget and the worklist.
pub enum CrawlStep {
    /// the budget is exhausted: the worker exits
    Done,
    /// nothing is pending right now: sleep briefly, then check again
    Wait,
    /// fetch this entry's child URL, then merge the results
    Fetch(LinkPath),
}

/// The frontier entries that merging a page adds: one `(page, link)` pair for
/// each discovered link whose URL has no record yet in `g`, in discovery
/// order.
pub open spec fn enqueued(g: Seq<LinkView>, parent_url: Seq<char>, links: Seq<Seq<char>>) -> Seq<
    LinkPathView,
>
    decreases links.len(),
{
    if links.len() == 0 {
        Seq::empty()
    } else {
        let rest = enqueued(g, parent_url, links.drop_last());
        if has_url(g, links.last()) {
            rest
        } else {
            rest.push(LinkPathView { parent: parent_url, child: links.last() })
        }
    }
}

impl CrawlerState {
    /// Validity of the shared state: the graph is well-formed.
    pub open spec fn wf(&self) -> bool {
        self.graph.wf()
    }

    /// A fresh run: an empty graph, the given budget, and a worklist holding
    /// only the seed (with no referring page).
    pub fn new(starting_url: String, max_links: usize) -> (s: CrawlerState)
        ensures
            s.wf(),
            s.graph@ == Seq::<LinkView>::empty(),
            s.max_links == max_links,
            s.frontier@ == seq![
                LinkPathView { parent: Seq::<char>::empty(), child: starting_url@ },
            ],
    {
        let mut frontier = Frontier::new();
        frontier.push(LinkPath { parent: String::new(), child: starting_url });
        let s = CrawlerState { frontier, graph: LinkGraph::new(), max_links };
        proof {
            assert(s.frontier@ =~= seq![
                LinkPathView { parent: Seq::<char>::empty(), child: s.frontier@[0].child },
            ]);
        }
        s
    }

    /// The CHECK_BUDGET and DEQUEUE states of the worker loop, in one call:
    /// decide whether this worker is done, must wait, or has a page to fetch.
    ///
    /// Budget respect: a `Fetch` is returned only while the number of claimed
    /// pages has not exceeded the budget, so no new fetch starts once
    /// `len() > max_links` has been observed.
    pub fn begin_step(&mut self) -> (step: CrawlStep)
        ensures
            final(self).graph == old(self).graph,
            final(self).max_links == old(self).max_links,
            (step is Done) <==> old(self).graph@.len() > old(self).max_links,
            step is Fetch ==> old(self).graph@.len() <= old(self).max_links,
            (step is Wait) <==> (old(self).graph@.len() <= old(self).max_links
                && old(self).frontier@.len() == 0),
            step matches CrawlStep::Fetch(path) ==> path@ == old(self).frontier@.last()
                && final(self).frontier@ == old(self).frontier@.drop_last(),
            !(step is Fetch) ==> final(self).frontier@ == old(self).frontier@,
    {
        let found = self.graph.len();
        if found > self.max_links {
            return CrawlStep::Done;
        }
        match self.frontier.pop() {
            Some(path) => CrawlStep::Fetch(path),
            None => CrawlStep::Wait,
        }
    }

    /// The MERGE state of the worker loop: every discovered link that has no
    /// record yet is queued for a visit (with this page as its parent), and
    /// then the page's results are merged into the graph. Always succeeds on
    /// a well-formed state.
    pub fn merge_page(&mut self, path: &LinkPath, output: &ScrapeOutput) -> (r: Result<
        (),
        GraphError,
    >)
        requires
            old(self).wf(),
        ensures
            r is Ok,
            final(self).wf(),
            final(self).max_links == old(self).max_links,
            final(self).graph@.len() >= old(self).graph@.len(),
            final(self).graph@ == update_spec(
                old(self).graph@,
                path.child@,
                path.parent@,
                output.links.deep_view(),
                output.images.deep_view(),
                output.titles.deep_view(),
            ),
            final(self).frontier@ == old(self).frontier@ + enqueued(
                old(self).graph@,
                path.child@,
                output.links.deep_view(),
            ),
    {
        let n = output.links.len();
        let mut i: usize = 0;
        while i < n
            invariant
                self.graph == old(self).graph,
                self.max_links == old(self).max_links,
                n == output.links@.len(),
                i <= n,
                self.frontier@ == old(self).frontier@ + enqueued(
                    self.graph@,
                    path.child@,
                    output.links.deep_view().take(i as int),
                ),
            decreases n - i,
        {
            proof {
                assert(output.links.deep_view().take(i + 1).drop_last()
                    =~= output.links.deep_view().take(i as int));
                assert(output.links.deep_view().take(i + 1).last() == output.links@[i as int]@);
            }
            let link = &output.links[i];
            if !self.graph.link_visited(link.as_str()) {
                self.frontier.push(
                    LinkPath { parent: path.child.clone(), child: link.clone() },
                );
            }
            i += 1;
        }
        proof {
            assert(output.links.deep_view().take(n as int) =~= output.links.deep_view());
        }
        let links_s: &[String] = output.links.as_slice();
        let images_s: &[Image] = output.images.as_slice();
        let titles_s: &[String] = output.titles.as_slice();
        proof {
            assert(links_s.deep_view() =~= output.links.deep_view());
            assert(images_s.deep_view() =~= output.images.deep_view());
            assert(titles_s.deep_view() =~= output.titles.deep_view());
        }
        self.graph.update(path.child.as_str(), path.parent.as_str(), links_s, images_s, titles_s)
    }
}

} // verus!
