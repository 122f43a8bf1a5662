use rusty_crawler::crawler::{CrawlStep, CrawlerState, Frontier, LinkPath, ScrapeOutput};

fn s(x: &str) -> String {
    String::from(x)
}

fn output_with_links(links: &[&str]) -> ScrapeOutput {
    let mut out = ScrapeOutput::empty();
    out.links = links.iter().map(|l| String::from(*l)).collect();
    out
}

#[test]
fn frontier_is_lifo() {
    let mut f = Frontier::new();
    assert_eq!(f.len(), 0);
    f.push(LinkPath { parent: s(""), child: s("https://a.example/") });
    f.push(LinkPath { parent: s("https://a.example/"), child: s("https://b.example/") });
    assert_eq!(f.len(), 2);
    let first = f.pop().unwrap();
    assert_eq!(first.child, "https://b.example/");
    let second = f.pop().unwrap();
    assert_eq!(second.child, "https://a.example/");
    assert_eq!(second.parent, "");
    assert!(f.pop().is_none());
}

#[test]
fn new_state_queues_only_the_seed() {
    let mut state = CrawlerState::new(s("https://seed.example/"), 10);
    assert_eq!(state.graph.len(), 0);
    assert_eq!(state.max_links, 10);
    assert_eq!(state.frontier.len(), 1);
    let seed = state.frontier.pop().unwrap();
    assert_eq!(seed.parent, "");
    assert_eq!(seed.child, "https://seed.example/");
}

#[test]
fn begin_step_waits_on_empty_frontier() {
    let mut state = CrawlerState::new(s("https://seed.example/"), 10);
    match state.begin_step() {
        CrawlStep::Fetch(path) => assert_eq!(path.child, "https://seed.example/"),
        _ => panic!("expected a fetch of the seed"),
    }
    assert!(matches!(state.begin_step(), CrawlStep::Wait));
}

#[test]
fn begin_step_stops_once_budget_exceeded() {
    let mut state = CrawlerState::new(s("https://seed.example/"), 0);
    let path = match state.begin_step() {
        CrawlStep::Fetch(path) => path,
        _ => panic!("the first check is under budget"),
    };
    state.merge_page(&path, &ScrapeOutput::empty()).unwrap();
    assert_eq!(state.graph.len(), 1);
    // 1 > 0: every later check is Done, even though nothing is pending
    assert!(matches!(state.begin_step(), CrawlStep::Done));
    assert!(matches!(state.begin_step(), CrawlStep::Done));
}

#[test]
fn crawl_of_seed_without_links() {
    // a seed with no outbound links gives a graph with exactly one record,
    // with empty children/parents/images/titles
    let mut state = CrawlerState::new(s("https://seed.example/"), 100);
    let path = match state.begin_step() {
        CrawlStep::Fetch(path) => path,
        _ => panic!("expected a fetch of the seed"),
    };
    state.merge_page(&path, &ScrapeOutput::empty()).unwrap();
    assert!(matches!(state.begin_step(), CrawlStep::Wait));
    assert_eq!(state.graph.len(), 1);
    let seed = state.graph.get_link(0).unwrap();
    assert_eq!(seed.url, "https://seed.example/");
    assert!(seed.children.is_empty());
    assert!(seed.parents.is_empty());
    assert!(seed.images.is_empty());
    assert!(seed.titles.is_empty());
}

#[test]
fn crawl_of_three_page_cycle() {
    // seed links to page1, page1 to page2, page2 back to the seed: the crawl
    // records each edge once both ends are claimed, and the back-edge once
    // page2 is processed
    let seed = "https://seed.example/";
    let page1 = "https://page1.example/";
    let page2 = "https://page2.example/";
    let mut state = CrawlerState::new(s(seed), 100);
    loop {
        let path = match state.begin_step() {
            CrawlStep::Fetch(path) => path,
            CrawlStep::Wait => break,
            CrawlStep::Done => break,
        };
        let out = if path.child == seed {
            output_with_links(&[page1])
        } else if path.child == page1 {
            output_with_links(&[page2])
        } else {
            output_with_links(&[seed])
        };
        state.merge_page(&path, &out).unwrap();
    }
    assert_eq!(state.graph.len(), 3);
    let seed_id = state.graph.get_link_id(seed).unwrap();
    let p1_id = state.graph.get_link_id(page1).unwrap();
    let p2_id = state.graph.get_link_id(page2).unwrap();
    assert_eq!(state.graph.get_link(p1_id).unwrap().parents, vec![seed_id]);
    assert!(state.graph.get_link(seed_id).unwrap().children.contains(&p1_id));
    // the back-edge, recorded while processing page2
    assert!(state.graph.get_link(p2_id).unwrap().children.contains(&seed_id));
    assert_eq!(state.graph.get_link(p2_id).unwrap().parents, vec![p1_id]);
}

#[test]
fn crawl_with_budget_for_the_seed_alone() {
    // with a budget that admits only the seed, the crawl visits exactly the
    // seed, leaves its discovered links pending, and stops
    let mut state = CrawlerState::new(s("https://seed.example/"), 0);
    let mut fetches = 0;
    loop {
        let path = match state.begin_step() {
            CrawlStep::Fetch(path) => path,
            CrawlStep::Wait => panic!("the frontier never runs dry here"),
            CrawlStep::Done => break,
        };
        fetches += 1;
        let out = output_with_links(&["https://l1.example/", "https://l2.example/"]);
        state.merge_page(&path, &out).unwrap();
    }
    assert_eq!(fetches, 1);
    assert_eq!(state.graph.len(), 1);
    assert_eq!(state.graph.get_link(0).unwrap().url, "https://seed.example/");
    // the discovered links were enqueued and are simply discarded at shutdown
    assert_eq!(state.frontier.len(), 2);
}

#[test]
fn crawl_when_extraction_always_fails() {
    // a fetch-and-extract step that always fails degrades every page to an
    // empty result: the graph ends with exactly one empty record for the
    // seed and an empty frontier
    let mut state = CrawlerState::new(s("https://seed.example/"), 100);
    loop {
        let path = match state.begin_step() {
            CrawlStep::Fetch(path) => path,
            CrawlStep::Wait => break,
            CrawlStep::Done => break,
        };
        state.merge_page(&path, &ScrapeOutput::empty()).unwrap();
    }
    assert_eq!(state.graph.len(), 1);
    let seed = state.graph.get_link(0).unwrap();
    assert!(seed.children.is_empty());
    assert!(seed.parents.is_empty());
    assert_eq!(state.frontier.len(), 0);
}

#[test]
fn merge_page_enqueues_only_unvisited_links() {
    let mut state = CrawlerState::new(s("https://seed.example/"), 100);
    let path = match state.begin_step() {
        CrawlStep::Fetch(path) => path,
        _ => panic!("expected a fetch of the seed"),
    };
    state.merge_page(&path, &ScrapeOutput::empty()).unwrap();
    // a page that links to the (already visited) seed and to a new page
    let path2 = LinkPath { parent: s(""), child: s("https://other.example/") };
    let out = output_with_links(&["https://seed.example/", "https://new.example/"]);
    state.merge_page(&path2, &out).unwrap();
    assert_eq!(state.frontier.len(), 1);
    let queued = state.frontier.pop().unwrap();
    assert_eq!(queued.parent, "https://other.example/");
    assert_eq!(queued.child, "https://new.example/");
}
