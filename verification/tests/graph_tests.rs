use rusty_crawler::model::image::Image;
use rusty_crawler::model::link_graph::LinkGraph;

fn s(x: &str) -> String {
    String::from(x)
}

#[test]
fn update_creates_empty_record() {
    let mut g = LinkGraph::new();
    let r = g.update("https://a.example/", "", &[], &[], &[]);
    assert!(r.is_ok());
    assert_eq!(g.len(), 1);
    let id = g.get_link_id("https://a.example/").unwrap();
    assert_eq!(id, 0);
    let link = g.get_link(id).unwrap();
    assert_eq!(link.id, 0);
    assert_eq!(link.url, "https://a.example/");
    assert!(link.children.is_empty());
    assert!(link.parents.is_empty());
    assert!(link.images.is_empty());
    assert!(link.titles.is_empty());
}

#[test]
fn update_records_parent_edge_both_ways() {
    let mut g = LinkGraph::new();
    g.update("https://a.example/", "", &[], &[], &[]).unwrap();
    g.update("https://b.example/", "https://a.example/", &[], &[], &[]).unwrap();
    let a = g.get_link_id("https://a.example/").unwrap();
    let b = g.get_link_id("https://b.example/").unwrap();
    assert_eq!(a, 0);
    assert_eq!(b, 1);
    assert_eq!(g.get_link(b).unwrap().parents, vec![a]);
    assert_eq!(g.get_link(a).unwrap().children, vec![b]);
}

#[test]
fn update_ignores_unknown_children_and_unknown_parent() {
    let mut g = LinkGraph::new();
    g.update(
        "https://a.example/",
        "https://nowhere.example/",
        &[s("https://alsonowhere.example/")],
        &[],
        &[],
    )
    .unwrap();
    assert_eq!(g.len(), 1);
    let a = g.get_link(0).unwrap();
    assert!(a.children.is_empty());
    assert!(a.parents.is_empty());
}

#[test]
fn update_records_known_children() {
    let mut g = LinkGraph::new();
    g.update("https://a.example/", "", &[], &[], &[]).unwrap();
    g.update("https://b.example/", "", &[], &[], &[]).unwrap();
    g.update(
        "https://c.example/",
        "",
        &[s("https://a.example/"), s("https://b.example/"), s("https://missing.example/")],
        &[],
        &[],
    )
    .unwrap();
    let c = g.get_link_id("https://c.example/").unwrap();
    assert_eq!(g.get_link(c).unwrap().children, vec![0, 1]);
}

#[test]
fn update_deduplicates_edges() {
    let mut g = LinkGraph::new();
    g.update("https://a.example/", "", &[], &[], &[]).unwrap();
    g.update(
        "https://b.example/",
        "https://a.example/",
        &[s("https://a.example/"), s("https://a.example/")],
        &[],
        &[],
    )
    .unwrap();
    let a = g.get_link_id("https://a.example/").unwrap();
    let b = g.get_link_id("https://b.example/").unwrap();
    assert_eq!(g.get_link(b).unwrap().children, vec![a]);
    assert_eq!(g.get_link(b).unwrap().parents, vec![a]);
    assert_eq!(g.get_link(a).unwrap().children, vec![b]);
}

#[test]
fn remerge_is_idempotent_on_edges() {
    let mut g = LinkGraph::new();
    g.update("https://a.example/", "", &[], &[], &[]).unwrap();
    let images = [Image { link: s("https://a.example/i.png"), alt: s("pic") }];
    let titles = [s("A page")];
    g.update(
        "https://b.example/",
        "https://a.example/",
        &[s("https://a.example/")],
        &images,
        &titles,
    )
    .unwrap();
    let len_after_first = g.len();
    let a = g.get_link_id("https://a.example/").unwrap();
    let b = g.get_link_id("https://b.example/").unwrap();
    let b_children = g.get_link(b).unwrap().children.clone();
    let b_parents = g.get_link(b).unwrap().parents.clone();
    let a_children = g.get_link(a).unwrap().children.clone();

    // the identical merge once more
    g.update(
        "https://b.example/",
        "https://a.example/",
        &[s("https://a.example/")],
        &images,
        &titles,
    )
    .unwrap();
    assert_eq!(g.len(), len_after_first);
    assert_eq!(g.get_link_id("https://a.example/").unwrap(), a);
    assert_eq!(g.get_link_id("https://b.example/").unwrap(), b);
    assert_eq!(g.get_link(b).unwrap().children, b_children);
    assert_eq!(g.get_link(b).unwrap().parents, b_parents);
    assert_eq!(g.get_link(a).unwrap().children, a_children);
    // record payloads accumulate by design
    assert_eq!(g.get_link(b).unwrap().images.len(), 2);
    assert_eq!(g.get_link(b).unwrap().titles.len(), 2);
}

#[test]
fn identity_is_stable_across_updates() {
    let mut g = LinkGraph::new();
    g.update("https://a.example/", "", &[], &[], &[]).unwrap();
    let a_first = g.get_link_id("https://a.example/").unwrap();
    for i in 0..5u32 {
        let url = format!("https://page{}.example/", i);
        g.update(&url, "https://a.example/", &[s("https://a.example/")], &[], &[]).unwrap();
        assert_eq!(g.get_link_id("https://a.example/").unwrap(), a_first);
    }
    assert_eq!(g.len(), 6);
}

#[test]
fn len_is_monotone_across_updates() {
    let mut g = LinkGraph::new();
    let mut previous = g.len();
    let urls = ["https://a.example/", "https://b.example/", "https://a.example/"];
    for url in urls {
        g.update(url, "", &[], &[], &[]).unwrap();
        assert!(g.len() >= previous);
        previous = g.len();
    }
    assert_eq!(g.len(), 2);
}

#[test]
fn link_visited_reports_claimed_urls() {
    let mut g = LinkGraph::new();
    assert!(!g.link_visited("https://a.example/"));
    g.update("https://a.example/", "", &[], &[], &[]).unwrap();
    assert!(g.link_visited("https://a.example/"));
    assert!(!g.link_visited("https://b.example/"));
}

#[test]
fn force_get_link_id_assigns_sequential_ids_once() {
    let mut g = LinkGraph::new();
    let a = g.force_get_link_id("https://a.example/").unwrap();
    let b = g.force_get_link_id("https://b.example/").unwrap();
    let a_again = g.force_get_link_id("https://a.example/").unwrap();
    assert_eq!(a, 0);
    assert_eq!(b, 1);
    assert_eq!(a_again, 0);
    assert_eq!(g.len(), 2);
}

#[test]
fn self_link_records_self_edge_once_claimed() {
    let mut g = LinkGraph::new();
    g.update("https://a.example/", "", &[], &[], &[]).unwrap();
    g.update("https://a.example/", "https://a.example/", &[], &[], &[]).unwrap();
    let a = g.get_link(0).unwrap();
    assert_eq!(a.parents, vec![0]);
    assert_eq!(a.children, vec![0]);
}
