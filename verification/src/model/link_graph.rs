use vstd::prelude::*;
use vstd::string::StringExecFns;

use crate::model::image::{Image, ImageView};
use crate::model::link::{
    add_child, extend_unique, lemma_extend_unique_contains, lemma_extend_unique_noop,
    lemma_push_unique_contains, merged_link, push_unique, Link, LinkId, LinkView,
};
use crate::strutil::str_eq;
use vstd::std_specs::vec::vec_index_mut;

verus! {

/// An internal-consistency failure: a record that was known to exist could not
/// be found. The graph's invariants rule this out, so no method ever returns
/// it; the variant is kept so that callers see such a defect as a distinct,
/// fatal-class error rather than a page-level one.
#[derive(Clone, Copy, Debug, PartialEq, Eq)]
pub enum GraphError {
    Inconsistent,
}

/// The authoritative store of discovered pages and their relationships.
///
/// Records are held in an arena: the [`LinkId`] of a record is its index, so
/// each distinct URL is assigned exactly one id, ids are assigned
/// monotonically, and no record is ever removed or reassigned.
pub struct LinkGraph {
    links: Vec<Link>,
}

/// Well-formedness of a graph view: ids are the indices, URLs are distinct,
/// and every recorded edge points at an existing record.
pub open spec fn graph_wf(g: Seq<LinkView>) -> bool {
    &&& forall|i: LinkId| i < g.len() ==> (#[trigger] g[i as int]).id == i
    &&& forall|i: LinkId, j: LinkId|
        i < g.len() && j < g.len() && i != j ==> (#[trigger] g[i as int]).url != (
        #[trigger] g[j as int]).url
    &&& forall|i: LinkId, k: int|
        i < g.len() && 0 <= k < g[i as int].children.len() ==> (#[trigger] g[i as int].children[k])
            < g.len()
    &&& forall|i: LinkId, k: int|
        i < g.len() && 0 <= k < g[i as int].parents.len() ==> (#[trigger] g[i as int].parents[k])
            < g.len()
}

/// Whether some record of `g` has the URL `url`.
pub open spec fn has_url(g: Seq<LinkView>, url: Seq<char>) -> bool {
    exists|i: LinkId| i < g.len() && (#[trigger] g[i as int]).url == url
}

/// The id of the record of `g` whose URL is `url` (meaningful when
/// `has_url(g, url)` holds; under `graph_wf` it is unique).
pub open spec fn id_of(g: Seq<LinkView>, url: Seq<char>) -> LinkId {
    choose|i: LinkId| i < g.len() && (#[trigger] g[i as int]).url == url
}

/// The record a graph of length `g.len()` assigns to a newly claimed `url`:
/// the next id, and empty edge and artifact lists.
pub open spec fn fresh_link(g: Seq<LinkView>, url: Seq<char>) -> LinkView {
    LinkView {
        id: g.len() as LinkId,
        url: url,
        children: Seq::empty(),
        parents: Seq::empty(),
        images: Seq::empty(),
        titles: Seq::empty(),
    }
}

/// The graph after `url` has been claimed: unchanged if it already has a
/// record, extended by a fresh record otherwise.
pub open spec fn claimed(g: Seq<LinkView>, url: Seq<char>) -> Seq<LinkView> {
    if has_url(g, url) {
        g
    } else {
        g.push(fresh_link(g, url))
    }
}

/// The ids that `g` has already assigned to the URLs of `urls`, in order;
/// URLs without a record contribute nothing.
pub open spec fn known_ids(g: Seq<LinkView>, urls: Seq<Seq<char>>) -> Seq<LinkId>
    decreases urls.len(),
{
    if urls.len() == 0 {
        Seq::empty()
    } else {
        let rest = known_ids(g, urls.drop_last());
        if has_url(g, urls.last()) {
            rest.push(id_of(g, urls.last()))
        } else {
            rest
        }
    }
}

/// The whole effect of one [`LinkGraph::update`] call on a graph view:
/// the parent and the already-known children are resolved against the graph
/// as it stood before the call, `url` is claimed, its record merges the new
/// edges and artifacts, and the parent's record (if any) gains `url` as a
/// child.
pub open spec fn update_spec(
    g: Seq<LinkView>,
    url: Seq<char>,
    parent: Seq<char>,
    children: Seq<Seq<char>>,
    images: Seq<ImageView>,
    titles: Seq<Seq<char>>,
) -> Seq<LinkView> {
    let maybe_parent = if has_url(g, parent) {
        Some(id_of(g, parent))
    } else {
        None::<LinkId>
    };
    let vc = known_ids(g, children);
    let g1 = claimed(g, url);
    let t = id_of(g1, url);
    let g2 = g1.update(t as int, merged_link(g1[t as int], maybe_parent, vc, images, titles));
    match maybe_parent {
        Some(p) => g2.update(p as int, add_child(g2[p as int], t)),
        None => g2,
    }
}

impl View for LinkGraph {
    type V = Seq<LinkView>;

    closed spec fn view(&self) -> Seq<LinkView> {
        self.links@.map_values(|l: Link| l@)
    }
}

impl LinkGraph {
    /// Well-formedness, as a one-word shorthand over the view.
    pub open spec fn wf(&self) -> bool {
        graph_wf(self@)
    }

    /// An empty graph: no page has been claimed yet.
    pub fn new() -> (g: LinkGraph)
        ensures
            g@ == Seq::<LinkView>::empty(),
            g.wf(),
    {
        let g = LinkGraph { links: Vec::new() };
        proof {
            assert(g@ =~= Seq::<LinkView>::empty());
        }
        g
    }

    /// The number of distinct pages with an assigned id.
    pub fn len(&self) -> (n: usize)
        ensures
            n == self@.len(),
    {
        self.links.len()
    }

    /// Looks up the record whose URL is `url`, returning its id (= index).
    fn find_link_id(&self, url: &str) -> (r: Option<LinkId>)
        ensures
            match r {
                Some(id) => id < self@.len() && self@[id as int].url == url@,
                None => !has_url(self@, url@),
            },
    {
        let n = self.links.len();
        let mut i: usize = 0;
        while i < n
            invariant
                n == self@.len(),
                i <= n,
                forall|j: LinkId| j < i ==> (#[trigger] self@[j as int]).url != url@,
            decreases n - i,
        {
            if str_eq(self.links[i].url.as_str(), url) {
                return Some(i);
            }
            i += 1;
        }
        None
    }

    /// True iff `url` already has an assigned id.
    pub fn link_visited(&self, url: &str) -> (r: bool)
        ensures
            r == has_url(self@, url@),
    {
        match self.find_link_id(url) {
            Some(id) => {
                proof {
                    assert(id < self@.len() && self@[id as int].url == url@);
                }
                true
            },
            None => false,
        }
    }

    /// The id assigned to `url`, if it has been claimed.
    pub fn get_link_id(&self, url: &str) -> (r: Option<LinkId>)
        requires
            self.wf(),
        ensures
            r == (if has_url(self@, url@) {
                Some(id_of(self@, url@))
            } else {
                None::<LinkId>
            }),
            r matches Some(id) ==> id < self@.len() && self@[id as int].url == url@,
    {
        match self.find_link_id(url) {
            Some(id) => {
                proof {
                    lemma_id_of_unique(self@, id, url@);
                }
                Some(id)
            },
            None => None,
        }
    }

    /// A read-only view of the record with the given id, if it exists.
    pub fn get_link(&self, id: LinkId) -> (r: Option<&Link>)
        ensures
            match r {
                Some(l) => id < self@.len() && l@ == self@[id as int],
                None => id >= self@.len(),
            },
    {
        if id < self.links.len() {
            Some(&self.links[id])
        } else {
            None
        }
    }

    /// Retrieves the id for `url`, claiming `url` first if it has no record
    /// yet: the fresh record takes the next id and empty contents.
    pub fn force_get_link_id(&mut self, url: &str) -> (r: Result<LinkId, GraphError>)
        requires
            old(self).wf(),
        ensures
            final(self)@ == claimed(old(self)@, url@),
            final(self).wf(),
            r matches Ok(id) && id == id_of(final(self)@, url@),
            r matches Ok(id) && id < final(self)@.len() && final(self)@[id as int].url == url@,
            !has_url(old(self)@, url@) ==> old(self)@.len() < usize::MAX,
    {
        match self.find_link_id(url) {
            Some(id) => {
                proof {
                    lemma_id_of_unique(self@, id, url@);
                }
                Ok(id)
            },
            None => {
                let id = self.links.len();
                let new_link = Link::new(
                    id,
                    String::from_str(url),
                    Vec::new(),
                    Vec::new(),
                    Vec::new(),
                    Vec::new(),
                );
                proof {
                    assert(new_link@ =~= fresh_link(old(self)@, url@));
                }
                self.links.push(new_link);
                let n2: usize = self.links.len();
                proof {
                    assert(old(self)@.len() < n2 <= usize::MAX);
                    assert(self@ =~= old(self)@.push(fresh_link(old(self)@, url@)));
                    lemma_claim_preserves_wf(old(self)@, url@);
                    lemma_id_of_unique(self@, id, url@);
                }
                Ok(id)
            },
        }
    }

    /// Resolves each URL of `children` that already has a record to its id,
    /// keeping order and skipping unknown URLs.
    fn collect_known_ids(&self, children: &[String]) -> (r: Vec<LinkId>)
        requires
            self.wf(),
        ensures
            r@ == known_ids(self@, children.deep_view()),
    {
        let mut r: Vec<LinkId> = Vec::new();
        let n = children.len();
        let mut i: usize = 0;
        while i < n
            invariant
                self.wf(),
                n == children@.len(),
                i <= n,
                r@ == known_ids(self@, children.deep_view().take(i as int)),
            decreases n - i,
        {
            proof {
                assert(children.deep_view().take(i + 1).drop_last() =~= children.deep_view().take(
                    i as int,
                ));
                assert(children.deep_view().take(i + 1).last() == children@[i as int]@);
            }
            match self.get_link_id(children[i].as_str()) {
                Some(id) => {
                    r.push(id);
                },
                None => {},
            }
            i += 1;
        }
        proof {
            assert(children.deep_view().take(n as int) =~= children.deep_view());
        }
        r
    }

    /// The core merge operation. Resolves or creates the record for `url`;
    /// if `parent` is already known, records the edge in both directions;
    /// records the already-known `children` as edges; and appends `images`
    /// and `titles` to the record. Edges are deduplicated; a link to an
    /// as-yet-unclaimed page is not recorded (see [`update_spec`] for the
    /// exact effect). Always succeeds on a well-formed graph.
    pub fn update(
        &mut self,
        url: &str,
        parent: &str,
        children: &[String],
        images: &[Image],
        titles: &[String],
    ) -> (r: Result<(), GraphError>)
        requires
            old(self).wf(),
        ensures
            r is Ok,
            final(self)@ == update_spec(
                old(self)@,
                url@,
                parent@,
                children.deep_view(),
                images.deep_view(),
                titles.deep_view(),
            ),
            final(self).wf(),
            final(self)@.len() >= old(self)@.len(),
            has_url(final(self)@, url@),
            forall|u: Seq<char>| #[trigger]
                has_url(old(self)@, u) ==> has_url(final(self)@, u) && id_of(final(self)@, u)
                    == id_of(old(self)@, u),
    {
        let maybe_parent: Option<LinkId> = self.get_link_id(parent);
        let valid_children: Vec<LinkId> = self.collect_known_ids(children);
        let this_id: LinkId = match self.force_get_link_id(url) {
            Ok(id) => id,
            Err(e) => {
                return Err(e);
            },
        };
        proof {
            lemma_update_preserves_wf(
                old(self)@,
                url@,
                parent@,
                children.deep_view(),
                images.deep_view(),
                titles.deep_view(),
            );
        }
        let ghost g1 = self@;
        let link = vec_index_mut(&mut self.links, this_id);
        link.merge(maybe_parent, &valid_children, images, titles);
        let ghost g2 = g1.update(
            this_id as int,
            merged_link(
                g1[this_id as int],
                maybe_parent,
                known_ids(old(self)@, children.deep_view()),
                images.deep_view(),
                titles.deep_view(),
            ),
        );
        proof {
            assert(self@ =~= g2);
        }
        if let Some(p) = maybe_parent {
            let parent_link = vec_index_mut(&mut self.links, p);
            parent_link.push_child_unique(this_id);
            proof {
                assert(self@ =~= g2.update(p as int, add_child(g2[p as int], this_id)));
            }
        }
        proof {
            lemma_claimed_frame(old(self)@, url@);
            assert forall|u: Seq<char>| #[trigger]
                has_url(old(self)@, u) implies has_url(self@, u) && id_of(self@, u) == id_of(
                old(self)@,
                u,
            ) by {
                lemma_update_preserves_identity(
                    old(self)@,
                    url@,
                    parent@,
                    children.deep_view(),
                    images.deep_view(),
                    titles.deep_view(),
                    u,
                );
            }
            assert(has_url(self@, url@)) by {
                let t = id_of(claimed(old(self)@, url@), url@);
                assert(claimed(old(self)@, url@)[t as int].url == url@);
                assert(self@[t as int].url == url@);
            }
        }
        Ok(())
    }
}

/// Under `graph_wf`, a record's index determines `id_of` for its URL: if
/// `g[i].url == url` then `url` is present and its id is `i`.
pub proof fn lemma_id_of_unique(g: Seq<LinkView>, i: LinkId, url: Seq<char>)
    requires
        graph_wf(g),
        i < g.len(),
        g[i as int].url == url,
    ensures
        has_url(g, url),
        id_of(g, url) == i,
{
    assert(has_url(g, url));
    let j = id_of(g, url);
    assert(j < g.len() && g[j as int].url == url);
}

/// Claiming a URL preserves well-formedness (the fresh record takes the next
/// id, a URL no existing record holds, and no edges).
pub proof fn lemma_claim_preserves_wf(g: Seq<LinkView>, url: Seq<char>)
    requires
        graph_wf(g),
        !has_url(g, url) ==> g.len() < usize::MAX,
    ensures
        graph_wf(claimed(g, url)),
        claimed(g, url).len() >= g.len(),
        has_url(claimed(g, url), url),
{
    if has_url(g, url) {
    } else {
        let g2 = g.push(fresh_link(g, url));
        assert(g2[g.len() as int].url == url);
        assert forall|i: LinkId| i < g2.len() implies (#[trigger] g2[i as int]).id == i by {
            if i < g.len() {
                assert(g2[i as int] == g[i as int]);
            }
        }
        assert forall|i: LinkId, j: LinkId| i < g2.len() && j < g2.len() && i != j implies (
        #[trigger] g2[i as int]).url != (#[trigger] g2[j as int]).url by {
            if i < g.len() && j < g.len() {
                assert(g2[i as int] == g[i as int] && g2[j as int] == g[j as int]);
            } else if i < g.len() {
                assert(g2[j as int] == fresh_link(g, url));
                assert(!(g[i as int].url == url));
            } else {
                assert(g2[i as int] == fresh_link(g, url));
                assert(j < g.len());
                assert(!(g[j as int].url == url));
            }
        }
        assert(has_url(g2, url));
    }
}

/// All ids in `s` lie below `n`.
pub open spec fn ids_below(s: Seq<LinkId>, n: nat) -> bool {
    forall|k: int| 0 <= k < s.len() ==> s[k] < n
}

/// `push_unique` introduces no id at or above the bound.
pub proof fn lemma_push_unique_below(s: Seq<LinkId>, x: LinkId, n: nat)
    requires
        ids_below(s, n),
        x < n,
    ensures
        ids_below(push_unique(s, x), n),
{
}

/// `extend_unique` introduces no id at or above the bound.
pub proof fn lemma_extend_unique_below(s: Seq<LinkId>, xs: Seq<LinkId>, n: nat)
    requires
        ids_below(s, n),
        ids_below(xs, n),
    ensures
        ids_below(extend_unique(s, xs), n),
    decreases xs.len(),
{
    if xs.len() == 0 {
    } else {
        assert(ids_below(xs.drop_last(), n));
        lemma_extend_unique_below(s, xs.drop_last(), n);
        lemma_push_unique_below(extend_unique(s, xs.drop_last()), xs.last(), n);
    }
}

/// Every id that `known_ids` resolves is the index of an existing record.
pub proof fn lemma_known_ids_below(g: Seq<LinkView>, urls: Seq<Seq<char>>)
    ensures
        ids_below(known_ids(g, urls), g.len()),
    decreases urls.len(),
{
    if urls.len() == 0 {
    } else {
        lemma_known_ids_below(g, urls.drop_last());
        if has_url(g, urls.last()) {
            let i = id_of(g, urls.last());
            assert(i < g.len() && g[i as int].url == urls.last());
        }
    }
}

/// One `update` preserves well-formedness, never removes a record, and leaves
/// every existing record's id and URL unchanged.
pub proof fn lemma_update_preserves_wf(
    g: Seq<LinkView>,
    url: Seq<char>,
    parent: Seq<char>,
    children: Seq<Seq<char>>,
    images: Seq<ImageView>,
    titles: Seq<Seq<char>>,
)
    requires
        graph_wf(g),
        !has_url(g, url) ==> g.len() < usize::MAX,
    ensures
        ({
            let g1 = claimed(g, url);
            let g9 = update_spec(g, url, parent, children, images, titles);
            &&& graph_wf(g9)
            &&& g9.len() == g1.len()
            &&& g1.len() >= g.len()
            &&& forall|i: LinkId|
                i < g1.len() ==> (#[trigger] g9[i as int]).url == g1[i as int].url && g9[i as int].id == g1[i as int].id
        }),
{
    let mp = if has_url(g, parent) {
        Some(id_of(g, parent))
    } else {
        None::<LinkId>
    };
    let vc = known_ids(g, children);
    let g1 = claimed(g, url);
    let g9 = update_spec(g, url, parent, children, images, titles);
    lemma_claim_preserves_wf(g, url);
    let t = id_of(g1, url);
    assert(t < g1.len() && g1[t as int].url == url);
    let m = merged_link(g1[t as int], mp, vc, images, titles);
    lemma_known_ids_below(g, children);
    assert(ids_below(vc, g1.len()));
    assert(ids_below(g1[t as int].children, g1.len()));
    lemma_extend_unique_below(g1[t as int].children, vc, g1.len());
    assert(ids_below(g1[t as int].parents, g1.len()));
    if mp is Some {
        let p = id_of(g, parent);
        assert(p < g.len() && g[p as int].url == parent);
        lemma_push_unique_below(g1[t as int].parents, p, g1.len());
    }
    let g2 = g1.update(t as int, m);
    assert(graph_wf(g2)) by {
        assert(forall|i: LinkId|
            i < g2.len() ==> (#[trigger] g2[i as int]).id == i && g2[i as int].url == g1[i as int].url);
    }
    match mp {
        Some(p) => {
            let a = add_child(g2[p as int], t);
            lemma_push_unique_below(g2[p as int].children, t, g1.len());
            let g3 = g2.update(p as int, a);
            assert(graph_wf(g3)) by {
                assert(forall|i: LinkId|
                    i < g3.len() ==> (#[trigger] g3[i as int]).id == i && g3[i as int].url == g1[i as int].url);
            }
            assert(g9 == g3);
        },
        None => {
            assert(g9 == g2);
        },
    }
}

/// Claiming leaves every existing record in place, and afterwards the URL is
/// present.
pub proof fn lemma_claimed_frame(g: Seq<LinkView>, url: Seq<char>)
    requires
        !has_url(g, url) ==> g.len() < usize::MAX,
    ensures
        has_url(claimed(g, url), url),
        claimed(g, url).len() == g.len() + (if has_url(g, url) {
            0int
        } else {
            1int
        }),
        forall|i: int| 0 <= i < g.len() ==> claimed(g, url)[i] == g[i],
{
    if !has_url(g, url) {
        let g1 = g.push(fresh_link(g, url));
        assert(g1[g.len() as int].url == url);
        assert(has_url(g1, url));
    }
}

/// One update step of some worker: the graph went from `g1` to `g2` through a
/// single `update` call with some arguments.
pub open spec fn is_update_step(g1: Seq<LinkView>, g2: Seq<LinkView>) -> bool {
    exists|
        url: Seq<char>,
        parent: Seq<char>,
        children: Seq<Seq<char>>,
        images: Seq<ImageView>,
        titles: Seq<Seq<char>>,
    |
        g2 == (#[trigger] update_spec(g1, url, parent, children, images, titles))
}

/// A graph that went from `g1` to `g2` through one `update` call — which is
/// what [`LinkGraph::update`] ensures — took one update step.
pub proof fn lemma_update_is_step(
    g1: Seq<LinkView>,
    g2: Seq<LinkView>,
    url: Seq<char>,
    parent: Seq<char>,
    children: Seq<Seq<char>>,
    images: Seq<ImageView>,
    titles: Seq<Seq<char>>,
)
    requires
        g2 == update_spec(g1, url, parent, children, images, titles),
    ensures
        is_update_step(g1, g2),
{
}

/// The graph states of one crawl run, in order: a well-formed start, then one
/// `update` after another. (The length bound is the machine limit of the
/// arena; a graph held in memory always satisfies it.)
pub open spec fn is_run(run: Seq<Seq<LinkView>>) -> bool {
    &&& run.len() > 0
    &&& graph_wf(run[0])
    &&& forall|k: int| 0 <= k < run.len() - 1 ==> is_update_step(#[trigger] run[k], run[k + 1])
    &&& forall|k: int| 0 <= k < run.len() ==> (#[trigger] run[k]).len() < usize::MAX
}

/// Every state of a run is well-formed, and every step keeps each existing
/// record's id and URL unchanged.
pub proof fn lemma_run_wf(run: Seq<Seq<LinkView>>, k: int)
    requires
        is_run(run),
        0 <= k < run.len(),
    ensures
        graph_wf(run[k]),
    decreases k,
{
    if k > 0 {
        lemma_run_wf(run, k - 1);
        assert(is_update_step(run[k - 1], run[k]));
        let (url, parent, children, images, titles) = choose|
            url: Seq<char>,
            parent: Seq<char>,
            children: Seq<Seq<char>>,
            images: Seq<ImageView>,
            titles: Seq<Seq<char>>,
        | run[k] == (#[trigger] update_spec(run[k - 1], url, parent, children, images, titles));
        lemma_update_preserves_wf(run[k - 1], url, parent, children, images, titles);
    }
}

/// Law (identity uniqueness, one step): an `update` call never reassigns an
/// id. Any URL that had a record before the call has the same record index —
/// the same [`LinkId`] — after it.
pub proof fn lemma_update_preserves_identity(
    g: Seq<LinkView>,
    url: Seq<char>,
    parent: Seq<char>,
    children: Seq<Seq<char>>,
    images: Seq<ImageView>,
    titles: Seq<Seq<char>>,
    u: Seq<char>,
)
    requires
        graph_wf(g),
        !has_url(g, url) ==> g.len() < usize::MAX,
        has_url(g, u),
    ensures
        has_url(update_spec(g, url, parent, children, images, titles), u),
        id_of(update_spec(g, url, parent, children, images, titles), u) == id_of(g, u),
{
    let g1 = claimed(g, url);
    let g9 = update_spec(g, url, parent, children, images, titles);
    lemma_claimed_frame(g, url);
    lemma_update_preserves_wf(g, url, parent, children, images, titles);
    let i = id_of(g, u);
    assert(i < g.len() && g[i as int].url == u);
    assert(g1[i as int] == g[i as int]);
    assert(g9[i as int].url == u);
    lemma_id_of_unique(g9, i, u);
}

/// Law: *identity uniqueness*. Within any reachable graph a URL has at most
/// one record (ids are record indices and URLs are distinct, see
/// [`lemma_id_of_unique`]); and over a whole run, the id first assigned to a
/// URL is the id it has in every later state. So exactly one [`LinkId`] is
/// ever assigned to a given URL, no matter which `update` calls follow.
pub proof fn lemma_identity_uniqueness(run: Seq<Seq<LinkView>>, u: Seq<char>, i: int, j: int)
    requires
        is_run(run),
        0 <= i <= j < run.len(),
        has_url(run[i], u),
    ensures
        has_url(run[j], u),
        id_of(run[j], u) == id_of(run[i], u),
    decreases j - i,
{
    if i < j {
        lemma_identity_uniqueness(run, u, i, j - 1);
        lemma_run_wf(run, j - 1);
        assert(is_update_step(run[j - 1], run[j]));
        let (url, parent, children, images, titles) = choose|
            url: Seq<char>,
            parent: Seq<char>,
            children: Seq<Seq<char>>,
            images: Seq<ImageView>,
            titles: Seq<Seq<char>>,
        | run[j] == (#[trigger] update_spec(run[j - 1], url, parent, children, images, titles));
        lemma_update_preserves_identity(run[j - 1], url, parent, children, images, titles, u);
    }
}

/// Law: *monotonic growth*, one step: an `update` never removes a record.
pub proof fn lemma_update_monotonic(
    g: Seq<LinkView>,
    url: Seq<char>,
    parent: Seq<char>,
    children: Seq<Seq<char>>,
    images: Seq<ImageView>,
    titles: Seq<Seq<char>>,
)
    requires
        graph_wf(g),
        g.len() < usize::MAX,
    ensures
        update_spec(g, url, parent, children, images, titles).len() >= g.len(),
{
    lemma_update_preserves_wf(g, url, parent, children, images, titles);
}

/// Law: *monotonic growth*. `len()` is non-decreasing over the course of a
/// run: each state of a crawl has at least as many records as every earlier
/// one.
pub proof fn lemma_monotonic_growth(run: Seq<Seq<LinkView>>, i: int, j: int)
    requires
        is_run(run),
        0 <= i <= j < run.len(),
    ensures
        run[j].len() >= run[i].len(),
    decreases j - i,
{
    if i < j {
        lemma_monotonic_growth(run, i, j - 1);
        lemma_run_wf(run, j - 1);
        assert(is_update_step(run[j - 1], run[j]));
        let (url, parent, children, images, titles) = choose|
            url: Seq<char>,
            parent: Seq<char>,
            children: Seq<Seq<char>>,
            images: Seq<ImageView>,
            titles: Seq<Seq<char>>,
        | run[j] == (#[trigger] update_spec(run[j - 1], url, parent, children, images, titles));
        lemma_update_monotonic(run[j - 1], url, parent, children, images, titles);
    }
}

/// The resolved ids of a URL list agree between two well-formed graphs whose
/// records carry the same URLs at the same indices.
pub proof fn lemma_known_ids_same_urls(ga: Seq<LinkView>, gb: Seq<LinkView>, urls: Seq<Seq<char>>)
    requires
        graph_wf(ga),
        graph_wf(gb),
        ga.len() == gb.len(),
        forall|i: int| 0 <= i < ga.len() ==> (#[trigger] ga[i]).url == gb[i].url,
    ensures
        known_ids(ga, urls) == known_ids(gb, urls),
    decreases urls.len(),
{
    if urls.len() > 0 {
        lemma_known_ids_same_urls(ga, gb, urls.drop_last());
        let u = urls.last();
        if has_url(ga, u) {
            let i = id_of(ga, u);
            assert(i < ga.len() && ga[i as int].url == u);
            assert(gb[i as int].url == u);
            lemma_id_of_unique(gb, i, u);
        } else {
            if has_url(gb, u) {
                let i = id_of(gb, u);
                assert(i < gb.len() && gb[i as int].url == u);
                assert(ga[i as int].url == u);
                assert(has_url(ga, u));
            }
        }
    }
}

/// Law: *idempotent re-merge*. Calling `update` twice with identical
/// arguments for an already-claimed page does not corrupt the graph: the
/// second call changes no id, no URL, and — edges being deduplicated — no
/// `children` or `parents` list. (Images and titles accumulate by design;
/// only the record payloads grow.)
pub proof fn lemma_idempotent_remerge(
    g: Seq<LinkView>,
    url: Seq<char>,
    parent: Seq<char>,
    children: Seq<Seq<char>>,
    images: Seq<ImageView>,
    titles: Seq<Seq<char>>,
)
    requires
        graph_wf(g),
        g.len() <= usize::MAX,
        has_url(g, url),
    ensures
        ({
            let h1 = update_spec(g, url, parent, children, images, titles);
            let h2 = update_spec(h1, url, parent, children, images, titles);
            &&& graph_wf(h2)
            &&& h2.len() == h1.len()
            &&& forall|i: int|
                0 <= i < h1.len() ==> (#[trigger] h2[i]).id == h1[i].id && h2[i].url == h1[i].url
                    && h2[i].children == h1[i].children && h2[i].parents == h1[i].parents
        }),
{
    let h1 = update_spec(g, url, parent, children, images, titles);
    let h2 = update_spec(h1, url, parent, children, images, titles);
    lemma_update_preserves_wf(g, url, parent, children, images, titles);
    assert(claimed(g, url) == g);
    assert(h1.len() == g.len());
    let t = id_of(g, url);
    assert(t < g.len() && g[t as int].url == url);
    assert(forall|i: int|
        0 <= i < g.len() ==> (#[trigger] h1[i]).url == g[i].url && h1[i].id == g[i].id);
    assert(h1[t as int].url == url);
    lemma_id_of_unique(h1, t, url);
    assert(claimed(h1, url) == h1);
    lemma_update_preserves_wf(h1, url, parent, children, images, titles);
    let vc = known_ids(g, children);
    lemma_known_ids_same_urls(g, h1, children);
    assert(known_ids(h1, children) == vc);

    let mp = if has_url(g, parent) {
        Some(id_of(g, parent))
    } else {
        None::<LinkId>
    };
    if has_url(g, parent) {
        let p = id_of(g, parent);
        assert(p < g.len() && g[p as int].url == parent);
        assert(h1[p as int].url == parent);
        lemma_id_of_unique(h1, p, parent);
    } else {
        if has_url(h1, parent) {
            let i = id_of(h1, parent);
            assert(i < h1.len() && h1[i as int].url == parent);
            assert(g[i as int].url == parent);
            assert(has_url(g, parent));
        }
    }

    let m1 = merged_link(g[t as int], mp, vc, images, titles);
    let ga = g.update(t as int, m1);
    lemma_extend_unique_contains(g[t as int].children, vc);
    assert(forall|y: LinkId| vc.contains(y) ==> #[trigger] m1.children.contains(y));

    match mp {
        None => {
            assert(h1 == ga);
            assert(h1[t as int] == m1);
            let m2 = merged_link(h1[t as int], mp, vc, images, titles);
            lemma_extend_unique_noop(m1.children, vc);
            assert(m2.children == m1.children);
            assert(m2.parents == m1.parents);
            assert(h2 == h1.update(t as int, m2));
            assert forall|i: int|
                0 <= i < h1.len() implies (#[trigger] h2[i]).id == h1[i].id && h2[i].url == h1[
                i
            ].url && h2[i].children == h1[i].children && h2[i].parents == h1[i].parents by {
                if i != t {
                    assert(h2[i] == h1[i]);
                }
            }
        },
        Some(p) => {
            assert(h1 == ga.update(p as int, add_child(ga[p as int], t)));
            lemma_push_unique_contains(m1.children, t);
            lemma_push_unique_contains(g[t as int].parents, p);
            if p != t {
                assert(h1[t as int] == m1);
                assert(ga[p as int] == g[p as int]);
                assert(h1[p as int] == add_child(g[p as int], t));
                let m2 = merged_link(h1[t as int], mp, vc, images, titles);
                lemma_extend_unique_noop(m1.children, vc);
                assert(m2.children == m1.children);
                assert(m1.parents == push_unique(g[t as int].parents, p));
                assert(m1.parents.contains(p));
                assert(m2.parents == push_unique(m1.parents, p));
                assert(m2.parents == m1.parents);
                let hb = h1.update(t as int, m2);
                assert(hb[p as int] == h1[p as int]);
                assert(h1[p as int].children.contains(t)) by {
                    lemma_push_unique_contains(g[p as int].children, t);
                }
                assert(add_child(hb[p as int], t).children == hb[p as int].children);
                assert(h2 == hb.update(p as int, add_child(hb[p as int], t)));
                assert forall|i: int|
                    0 <= i < h1.len() implies (#[trigger] h2[i]).id == h1[i].id && h2[i].url == h1[
                    i
                ].url && h2[i].children == h1[i].children && h2[i].parents == h1[i].parents by {
                    if i != t && i != p {
                        assert(h2[i] == h1[i]);
                    } else if i == p {
                        assert(h2[i].children == h1[i].children && h2[i].parents == h1[i].parents);
                    }
                }
            } else {
                // the page lists itself as parent: both edges land on the same record
                let c1 = add_child(ga[t as int], t);
                assert(h1 == ga.update(t as int, c1));
                assert(h1[t as int] == c1);
                assert(c1.children == push_unique(m1.children, t));
                assert(c1.parents == m1.parents);
                assert(m1.parents == push_unique(g[t as int].parents, t));
                assert(m1.parents.contains(t)) by {
                    lemma_push_unique_contains(g[t as int].parents, t);
                }
                let m2 = merged_link(h1[t as int], mp, vc, images, titles);
                assert(forall|y: LinkId| vc.contains(y) ==> #[trigger] c1.children.contains(y));
                lemma_extend_unique_noop(c1.children, vc);
                assert(m2.children == c1.children);
                assert(m2.parents == push_unique(c1.parents, t));
                assert(m2.parents == c1.parents);
                let hb = h1.update(t as int, m2);
                assert(hb[t as int] == m2);
                assert(m2.children.contains(t)) by {
                    lemma_push_unique_contains(m1.children, t);
                }
                let c2 = add_child(hb[t as int], t);
                assert(c2.children == m2.children);
                assert(h2 == hb.update(t as int, c2));
                assert forall|i: int|
                    0 <= i < h1.len() implies (#[trigger] h2[i]).id == h1[i].id && h2[i].url == h1[
                    i
                ].url && h2[i].children == h1[i].children && h2[i].parents == h1[i].parents by {
                    if i != t {
                        assert(h2[i] == h1[i]);
                    }
                }
            }
        },
    }
}

/// Law: *edge validity*. In a well-formed graph, every id appearing in any
/// `children` or `parents` list is the index of an existing record, and that
/// record carries that id.
pub proof fn lemma_edge_validity(g: Seq<LinkView>)
    requires
        graph_wf(g),
    ensures
        forall|i: int, k: int|
            0 <= i < g.len() && 0 <= k < g[i].children.len() ==> (#[trigger] g[i].children[k])
                < g.len() && g[g[i].children[k] as int].id == g[i].children[k],
        forall|i: int, k: int|
            0 <= i < g.len() && 0 <= k < g[i].parents.len() ==> (#[trigger] g[i].parents[k])
                < g.len() && g[g[i].parents[k] as int].id == g[i].parents[k],
{
    assert forall|i: int, k: int|
        0 <= i < g.len() && 0 <= k < g[i].children.len() implies (#[trigger] g[i].children[k])
        < g.len() && g[g[i].children[k] as int].id == g[i].children[k] by {
        let c = g[i].children[k];
        assert(g[i as int].children[k] < g.len());
        assert(g[c as int].id == c);
    }
    assert forall|i: int, k: int|
        0 <= i < g.len() && 0 <= k < g[i].parents.len() implies (#[trigger] g[i].parents[k])
        < g.len() && g[g[i].parents[k] as int].id == g[i].parents[k] by {
        let c = g[i].parents[k];
        assert(g[i as int].parents[k] < g.len());
        assert(g[c as int].id == c);
    }
}

} // verus!
