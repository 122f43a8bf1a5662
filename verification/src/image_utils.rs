//! The compute side of the downstream image pipeline: which file extension a
//! fetched image should be saved under, and the flat list of images the crawl
//! accumulated. Downloading and writing files are I/O and stay with the
//! caller.

use vstd::prelude::*;

use crate::model::image::{Image, ImageView};
use crate::model::link::LinkView;
use crate::model::link_graph::LinkGraph;
use crate::strutil::str_eq;

verus! {

/// The file extension for a supported image content type, if any.
pub open spec fn extension_spec(content_type: Seq<char>) -> Option<Seq<char>> {
    if content_type == "image/gif"@ {
        Some("gif"@)
    } else if content_type == "image/jpeg"@ {
        Some("jpg"@)
    } else if content_type == "image/png"@ {
        Some("png"@)
    } else if content_type == "image/svg+xml"@ {
        Some("svg"@)
    } else if content_type == "image/webp"@ {
        Some("webp"@)
    } else if content_type == "image/tiff"@ {
        Some("tif"@)
    } else {
        None
    }
}

/// Maps an HTTP `content-type` header value to the extension an image file is
/// saved under. An unsupported content type yields nothing: a per-image
/// failure the caller skips and logs, never a fatal one.
pub fn get_extension(content_type: &str) -> (r: Option<&'static str>)
    ensures
        r.deep_view() == extension_spec(content_type@),
{
    if str_eq(content_type, "image/gif") {
        Some("gif")
    } else if str_eq(content_type, "image/jpeg") {
        Some("jpg")
    } else if str_eq(content_type, "image/png") {
        Some("png")
    } else if str_eq(content_type, "image/svg+xml") {
        Some("svg")
    } else if str_eq(content_type, "image/webp") {
        Some("webp")
    } else if str_eq(content_type, "image/tiff") {
        Some("tif")
    } else {
        None
    }
}

/// Every image of every record of the graph, flattened in id order.
pub open spec fn graph_images(g: Seq<LinkView>) -> Seq<ImageView>
    decreases g.len(),
{
    if g.len() == 0 {
        Seq::empty()
    } else {
        graph_images(g.drop_last()) + g.last().images
    }
}

/// Collects all the images found in the scraped pages, in id order: what the
/// image download and database steps consume once the crawl is over.
pub fn all_images(graph: &LinkGraph) -> (r: Vec<Image>)
    ensures
        r.deep_view() == graph_images(graph@),
{
    let mut r: Vec<Image> = Vec::new();
    proof {
        assert(r.deep_view() =~= Seq::<ImageView>::empty());
    }
    let n = graph.len();
    let mut i: usize = 0;
    while i < n
        invariant
            n == graph@.len(),
            i <= n,
            r.deep_view() == graph_images(graph@.take(i as int)),
        decreases n - i,
    {
        proof {
            assert(graph@.take(i + 1).drop_last() =~= graph@.take(i as int));
            assert(graph@.take(i + 1).last() == graph@[i as int]);
        }
        if let Some(link) = graph.get_link(i) {
            let ghost pre = r.deep_view();
            let m = link.images.len();
            let mut j: usize = 0;
            while j < m
                invariant
                    m == link.images@.len(),
                    j <= m,
                    r.deep_view() == pre + link.images.deep_view().take(j as int),
                decreases m - j,
            {
                let ghost mid = r.deep_view();
                r.push(link.images[j].clone());
                proof {
                    assert(r.deep_view() =~= mid.push(link.images@[j as int]@));
                    assert(link.images.deep_view().take(j + 1)
                        =~= link.images.deep_view().take(j as int).push(
                        link.images@[j as int]@,
                    ));
                    assert(r.deep_view() =~= pre + link.images.deep_view().take(j + 1));
                }
                j += 1;
            }
            proof {
                assert(link.images.deep_view().take(m as int) =~= link.images.deep_view());
                assert(link.images.deep_view() == link@.images);
                assert(r.deep_view() =~= graph_images(graph@.take(i + 1)));
            }
        } else {
            proof {
                assert(false);
            }
        }
        i += 1;
    }
    proof {
        assert(graph@.take(n as int) =~= graph@);
    }
    r
}

} // verus!
