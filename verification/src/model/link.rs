use vstd::prelude::*;

use crate::model::image::{Image, ImageView};

verus! {

/// The identifier of a page record. Identifiers are assigned by
/// [`crate::model::link_graph::LinkGraph`] in arena style: the id of a record
/// is its index in the graph, so ids are process-unique, assigned once per
/// distinct URL, monotonically, and never reused.
pub type LinkId = usize;

/// A page record: its identity, its URL, the pages it links to and is linked
/// from (by id), and the images and titles found on it.
pub struct Link {
    /// unique ID for this link
    pub id: LinkId,
    /// the URL string for this link
    pub url: String,
    /// ids of pages this webpage links to
    pub children: Vec<LinkId>,
    /// ids of webpages that link to this webpage
    pub parents: Vec<LinkId>,
    /// images found on the webpage
    pub images: Vec<Image>,
    /// titles found on this webpage
    pub titles: Vec<String>,
}

/// The mathematical content of a [`Link`].
#[verifier::ext_equal]
pub struct LinkView {
    pub id: LinkId,
    pub url: Seq<char>,
    pub children: Seq<LinkId>,
    pub parents: Seq<LinkId>,
    pub images: Seq<ImageView>,
    pub titles: Seq<Seq<char>>,
}

impl View for Link {
    type V = LinkView;

    open spec fn view(&self) -> LinkView {
        LinkView {
            id: self.id,
            url: self.url@,
            children: self.children@,
            parents: self.parents@,
            images: self.images.deep_view(),
            titles: self.titles.deep_view(),
        }
    }
}

/// `s` with `x` appended, unless `x` is already present: neighbor lists hold
/// each neighbor at most once, so re-discovered edges are dropped rather than
/// duplicated.
pub open spec fn push_unique(s: Seq<LinkId>, x: LinkId) -> Seq<LinkId> {
    if s.contains(x) {
        s
    } else {
        s.push(x)
    }
}

/// `s` extended with the elements of `xs` in order, each appended only if not
/// already present at that point.
pub open spec fn extend_unique(s: Seq<LinkId>, xs: Seq<LinkId>) -> Seq<LinkId>
    decreases xs.len(),
{
    if xs.len() == 0 {
        s
    } else {
        push_unique(extend_unique(s, xs.drop_last()), xs.last())
    }
}

/// A link after one merge: the parent edge (if any) and the child edges are
/// recorded without duplicates; images and titles accumulate.
pub open spec fn merged_link(
    l: LinkView,
    maybe_parent: Option<LinkId>,
    vc: Seq<LinkId>,
    images: Seq<ImageView>,
    titles: Seq<Seq<char>>,
) -> LinkView {
    LinkView {
        parents: match maybe_parent {
            Some(p) => push_unique(l.parents, p),
            None => l.parents,
        },
        children: extend_unique(l.children, vc),
        images: l.images + images,
        titles: l.titles + titles,
        ..l
    }
}

/// `l` with `c` recorded as a child, unless already recorded.
pub open spec fn add_child(l: LinkView, c: LinkId) -> LinkView {
    LinkView { children: push_unique(l.children, c), ..l }
}

/// `push_unique` contains its argument and everything the list already held.
pub proof fn lemma_push_unique_contains(s: Seq<LinkId>, x: LinkId)
    ensures
        push_unique(s, x).contains(x),
        forall|y: LinkId| s.contains(y) ==> #[trigger] push_unique(s, x).contains(y),
        forall|y: LinkId| #[trigger] push_unique(s, x).contains(y) ==> s.contains(y) || y == x,
{
    if !s.contains(x) {
        assert(s.push(x)[s.len() as int] == x);
        assert(s.push(x).contains(x));
        assert forall|y: LinkId| s.contains(y) implies #[trigger] s.push(x).contains(y) by {
            let k = choose|k: int| 0 <= k < s.len() && s[k] == y;
            assert(s.push(x)[k] == y);
        }
        assert forall|y: LinkId| #[trigger] s.push(x).contains(y) implies s.contains(y) || y
            == x by {
            let k = choose|k: int| 0 <= k < s.push(x).len() && s.push(x)[k] == y;
            if k < s.len() {
                assert(s[k] == y);
            }
        }
    }
}

/// `extend_unique` contains everything the list already held and every
/// element of the extension.
pub proof fn lemma_extend_unique_contains(s: Seq<LinkId>, xs: Seq<LinkId>)
    ensures
        forall|y: LinkId| s.contains(y) ==> #[trigger] extend_unique(s, xs).contains(y),
        forall|y: LinkId| xs.contains(y) ==> #[trigger] extend_unique(s, xs).contains(y),
    decreases xs.len(),
{
    if xs.len() > 0 {
        lemma_extend_unique_contains(s, xs.drop_last());
        lemma_push_unique_contains(extend_unique(s, xs.drop_last()), xs.last());
        assert forall|y: LinkId| xs.contains(y) implies #[trigger] extend_unique(s, xs).contains(
            y,
        ) by {
            let k = choose|k: int| 0 <= k < xs.len() && xs[k] == y;
            if k < xs.len() - 1 {
                assert(xs.drop_last()[k] == y);
                assert(xs.drop_last().contains(y));
            } else {
                assert(y == xs.last());
            }
        }
    }
}

/// Extending a list with ids it already holds leaves it unchanged.
pub proof fn lemma_extend_unique_noop(s: Seq<LinkId>, xs: Seq<LinkId>)
    requires
        forall|y: LinkId| xs.contains(y) ==> #[trigger] s.contains(y),
    ensures
        extend_unique(s, xs) == s,
    decreases xs.len(),
{
    if xs.len() > 0 {
        assert forall|y: LinkId| xs.drop_last().contains(y) implies #[trigger] s.contains(y) by {
            let k = choose|k: int| 0 <= k < xs.drop_last().len() && xs.drop_last()[k] == y;
            assert(xs[k] == y);
            assert(xs.contains(y));
        }
        lemma_extend_unique_noop(s, xs.drop_last());
        assert(xs[xs.len() - 1] == xs.last());
        assert(xs.contains(xs.last()));
        assert(s.contains(xs.last()));
    }
}

/// Linear membership test on a list of ids.
fn contains_id(v: &Vec<LinkId>, x: LinkId) -> (r: bool)
    ensures
        r == v@.contains(x),
{
    let n = v.len();
    let mut i: usize = 0;
    while i < n
        invariant
            n == v@.len(),
            i <= n,
            forall|j: int| 0 <= j < i ==> v@[j] != x,
        decreases n - i,
    {
        if v[i] == x {
            proof {
                assert(v@.contains(x));
            }
            return true;
        }
        i += 1;
    }
    false
}

impl Link {
    /// Builds a page record with the given id and contents. Fresh ids come
    /// from the graph that owns the record.
    pub fn new(
        id: LinkId,
        url: String,
        children: Vec<LinkId>,
        parents: Vec<LinkId>,
        images: Vec<Image>,
        titles: Vec<String>,
    ) -> (link: Link)
        ensures
            link@ == (LinkView {
                id: id,
                url: url@,
                children: children@,
                parents: parents@,
                images: images.deep_view(),
                titles: titles.deep_view(),
            }),
    {
        Link { url, id, children, parents, images, titles }
    }

    /// Records `p` as a parent of this page, unless already recorded.
    pub(crate) fn push_parent_unique(&mut self, p: LinkId)
        ensures
            final(self)@ == (LinkView { parents: push_unique(old(self)@.parents, p), ..old(self)@ }),
    {
        if !contains_id(&self.parents, p) {
            self.parents.push(p);
        }
        proof {
            assert(self@ =~= (LinkView { parents: push_unique(old(self)@.parents, p), ..old(self)@ }));
        }
    }

    /// Records `c` as a child of this page, unless already recorded.
    pub(crate) fn push_child_unique(&mut self, c: LinkId)
        ensures
            final(self)@ == add_child(old(self)@, c),
    {
        if !contains_id(&self.children, c) {
            self.children.push(c);
        }
        proof {
            assert(self@ =~= add_child(old(self)@, c));
        }
    }

    /// Records each id of `vc`, in order, as a child of this page, skipping
    /// ones already recorded.
    pub(crate) fn extend_children_unique(&mut self, vc: &Vec<LinkId>)
        ensures
            final(self)@ == (LinkView {
                children: extend_unique(old(self)@.children, vc@),
                ..old(self)@
            }),
    {
        let n = vc.len();
        let mut i: usize = 0;
        while i < n
            invariant
                n == vc@.len(),
                i <= n,
                self.children@ == extend_unique(old(self)@.children, vc@.take(i as int)),
                self.id == old(self).id,
                self.url == old(self).url,
                self.parents == old(self).parents,
                self.images == old(self).images,
                self.titles == old(self).titles,
            decreases n - i,
        {
            proof {
                assert(vc@.take(i + 1).drop_last() =~= vc@.take(i as int));
                assert(vc@.take(i + 1).last() == vc@[i as int]);
            }
            let c = vc[i];
            if !contains_id(&self.children, c) {
                self.children.push(c);
            }
            i += 1;
        }
        proof {
            assert(vc@.take(n as int) =~= vc@);
            assert(self@ =~= (LinkView {
                children: extend_unique(old(self)@.children, vc@),
                ..old(self)@
            }));
        }
    }

    /// Appends copies of `images` to this page's image list.
    pub(crate) fn extend_images(&mut self, images: &[Image])
        ensures
            final(self)@ == (LinkView {
                images: old(self)@.images + images.deep_view(),
                ..old(self)@
            }),
    {
        self.images.extend_from_slice(images);
        proof {
            let pre = old(self).images.deep_view();
            let post = self.images.deep_view();
            assert forall|k: int| 0 <= k < post.len() implies post[k] == (pre
                + images.deep_view())[k] by {
                if k >= pre.len() {
                    assert(cloned::<Image>(images@[k - pre.len()], self.images@[k]));
                }
            }
            assert(post =~= pre + images.deep_view());
            assert(self@ =~= (LinkView {
                images: old(self)@.images + images.deep_view(),
                ..old(self)@
            }));
        }
    }

    /// Appends copies of `titles` to this page's title list.
    pub(crate) fn extend_titles(&mut self, titles: &[String])
        ensures
            final(self)@ == (LinkView {
                titles: old(self)@.titles + titles.deep_view(),
                ..old(self)@
            }),
    {
        self.titles.extend_from_slice(titles);
        proof {
            let pre = old(self).titles.deep_view();
            let post = self.titles.deep_view();
            assert forall|k: int| 0 <= k < post.len() implies post[k] == (pre
                + titles.deep_view())[k] by {
                if k >= pre.len() {
                    assert(cloned::<String>(titles@[k - pre.len()], self.titles@[k]));
                }
            }
            assert(post =~= pre + titles.deep_view());
            assert(self@ =~= (LinkView {
                titles: old(self)@.titles + titles.deep_view(),
                ..old(self)@
            }));
        }
    }

    /// One merge step on this page's record: records the parent edge and the
    /// child edges without duplicates, and appends the page's artifacts.
    pub(crate) fn merge(
        &mut self,
        maybe_parent: Option<LinkId>,
        vc: &Vec<LinkId>,
        images: &[Image],
        titles: &[String],
    )
        ensures
            final(self)@ == merged_link(
                old(self)@,
                maybe_parent,
                vc@,
                images.deep_view(),
                titles.deep_view(),
            ),
    {
        if let Some(p) = maybe_parent {
            self.push_parent_unique(p);
        }
        self.extend_children_unique(vc);
        self.extend_images(images);
        self.extend_titles(titles);
        proof {
            assert(self@ =~= merged_link(
                old(self)@,
                maybe_parent,
                vc@,
                images.deep_view(),
                titles.deep_view(),
            ));
        }
    }
}

} // verus!
